//! Integer coordinates of quadtree tiles.
//!
//! A [`TileId`] names a square tile by `(scale, x, z)`; scale 0 is the finest
//! level. The four children of a tile live one scale below it at the doubled
//! coordinates, and `parent` undoes that with truncating division.

use vstd::prelude::*;

verus! {

use vstd::arithmetic::power2::lemma2_to64;
use vstd::arithmetic::power2::pow2;
use vstd::pervasive::VecAdditionalExecFns;
use vstd::seq_lib::lemma_no_dup_in_concat;

/// Truncating (round-toward-zero) division by two, the meaning of `x / 2`
/// on a signed machine integer.
pub open spec fn half_trunc(x: int) -> int {
    if x >= 0 {
        x / 2
    } else {
        -((-x) / 2)
    }
}

/// Coordinate identity of a square tile in the quadtree: `scale` counts levels
/// above the finest resolution, `x` and `z` index the tile grid at that level.
#[derive(Clone, Copy, Hash, PartialEq, Eq, Structural, Debug)]
pub struct TileId {
    pub scale: i32,
    pub x: i32,
    pub z: i32,
}

impl TileId {
    pub fn new(scale: i32, x: i32, z: i32) -> (r: Self)
        ensures
            r == (TileId { scale, x, z }),
    {
        TileId { scale, x, z }
    }

    pub fn topleft(&self) -> (r: Self)
        requires
            i32::MIN < self.scale,
            i32::MIN / 2 <= self.x <= i32::MAX / 2,
            i32::MIN / 2 <= self.z <= i32::MAX / 2,
        ensures
            r == (TileId { scale: (self.scale - 1) as i32, x: (self.x * 2) as i32, z: (self.z * 2) as i32 }),
    {
        TileId { x: self.x * 2, z: self.z * 2, scale: self.scale - 1 }
    }

    pub fn topright(&self) -> (r: Self)
        requires
            i32::MIN < self.scale,
            i32::MIN / 2 <= self.x < i32::MAX / 2,
            i32::MIN / 2 <= self.z <= i32::MAX / 2,
        ensures
            r == (TileId { scale: (self.scale - 1) as i32, x: (self.x * 2 + 1) as i32, z: (self.z * 2) as i32 }),
    {
        TileId { x: self.x * 2 + 1, z: self.z * 2, scale: self.scale - 1 }
    }

    pub fn bottomleft(&self) -> (r: Self)
        requires
            i32::MIN < self.scale,
            i32::MIN / 2 <= self.x <= i32::MAX / 2,
            i32::MIN / 2 <= self.z < i32::MAX / 2,
        ensures
            r == (TileId { scale: (self.scale - 1) as i32, x: (self.x * 2) as i32, z: (self.z * 2 + 1) as i32 }),
    {
        TileId { x: self.x * 2, z: self.z * 2 + 1, scale: self.scale - 1 }
    }

    pub fn bottomright(&self) -> (r: Self)
        requires
            i32::MIN < self.scale,
            i32::MIN / 2 <= self.x < i32::MAX / 2,
            i32::MIN / 2 <= self.z < i32::MAX / 2,
        ensures
            r == (TileId { scale: (self.scale - 1) as i32, x: (self.x * 2 + 1) as i32, z: (self.z * 2 + 1) as i32 }),
    {
        TileId { x: self.x * 2 + 1, z: self.z * 2 + 1, scale: self.scale - 1 }
    }

    pub fn parent(&self) -> (r: Self)
        requires
            self.scale < i32::MAX,
        ensures
            r == (TileId { scale: (self.scale + 1) as i32, x: half_trunc(self.x as int) as i32, z: half_trunc(self.z as int) as i32 }),
    {
        TileId { x: self.x / 2, z: self.z / 2, scale: self.scale + 1 }
    }

    pub fn is_origin(&self) -> (r: bool)
        ensures
            r == (self.scale == 0),
    {
        self.scale == 0
    }

    /// Quadrant index by coordinate sign: bit 0 set when `x >= 0`, bit 1 set
    /// when `z >= 0`; the order is top-left, top-right, bottom-left,
    /// bottom-right.
    pub fn side(&self) -> (r: usize)
        ensures
            r == (if self.x >= 0 { 1int } else { 0int }) + (if self.z >= 0 { 2int } else { 0int }),
            r < 4,
    {
        let mut i: usize = 0;
        if self.x >= 0 {
            i = i + 1;
        }
        if self.z >= 0 {
            i = i + 2;
        }
        i
    }
}

/// Each child's id, divided back by two, names its parent again. The
/// round-trip holds on the non-negative quadrant; truncating division rounds
/// the odd-coordinate children of negative tiles toward zero instead.
pub proof fn lemma_child_parent_roundtrip(t: TileId)
    requires
        0 < t.scale,
        0 <= t.x <= i32::MAX / 2,
        0 <= t.z <= i32::MAX / 2,
    ensures
        spec_parent(spec_topleft(t)) == t,
        t.x < i32::MAX / 2 ==> spec_parent(spec_topright(t)) == t,
        t.z < i32::MAX / 2 ==> spec_parent(spec_bottomleft(t)) == t,
        t.x < i32::MAX / 2 && t.z < i32::MAX / 2 ==> spec_parent(spec_bottomright(t)) == t,
{
}

/// What `topleft` returns, at the spec level.
pub open spec fn spec_topleft(t: TileId) -> TileId {
    TileId { scale: (t.scale - 1) as i32, x: (t.x * 2) as i32, z: (t.z * 2) as i32 }
}

/// What `topright` returns, at the spec level.
pub open spec fn spec_topright(t: TileId) -> TileId {
    TileId { scale: (t.scale - 1) as i32, x: (t.x * 2 + 1) as i32, z: (t.z * 2) as i32 }
}

/// What `bottomleft` returns, at the spec level.
pub open spec fn spec_bottomleft(t: TileId) -> TileId {
    TileId { scale: (t.scale - 1) as i32, x: (t.x * 2) as i32, z: (t.z * 2 + 1) as i32 }
}

/// What `bottomright` returns, at the spec level.
pub open spec fn spec_bottomright(t: TileId) -> TileId {
    TileId { scale: (t.scale - 1) as i32, x: (t.x * 2 + 1) as i32, z: (t.z * 2 + 1) as i32 }
}

/// What `parent` returns, at the spec level.
pub open spec fn spec_parent(t: TileId) -> TileId {
    TileId { scale: (t.scale + 1) as i32, x: half_trunc(t.x as int) as i32, z: half_trunc(t.z as int) as i32 }
}

/// The `c`-th child of `t`, in the visiting order top-left, top-right,
/// bottom-left, bottom-right.
pub open spec fn spec_child(t: TileId, c: int) -> TileId {
    if c == 0 {
        spec_topleft(t)
    } else if c == 1 {
        spec_topright(t)
    } else if c == 2 {
        spec_bottomleft(t)
    } else {
        spec_bottomright(t)
    }
}

/// Every coordinate in the subtree rooted at `t`, walked down to scale
/// `stop`, stays representable in `i32`. This is what the walk needs so that
/// doubling a coordinate can never overflow.
pub open spec fn subtree_ok(t: TileId, stop: int) -> bool
    decreases t.scale - stop,
{
    t.scale <= stop || (i32::MIN < t.scale && -0x4000_0000 <= t.x < 0x3FFF_FFFF && -0x4000_0000 <= t.z
        < 0x3FFF_FFFF && subtree_ok(spec_topleft(t), stop) && subtree_ok(spec_topright(t), stop)
        && subtree_ok(spec_bottomleft(t), stop) && subtree_ok(spec_bottomright(t), stop))
}

/// The sequence of tiles a quadtree walk rooted at `t` with stop layer `stop`
/// emits: a node's four subtrees in order, then the node itself; a node at or
/// below the stop layer is emitted alone.
pub open spec fn postorder(t: TileId, stop: int) -> Seq<TileId>
    decreases t.scale - stop,
{
    if t.scale <= stop || t.scale == i32::MIN {
        // the scale floor cannot arise under `subtree_ok`; naming it keeps the
        // recursion well-founded for every argument
        seq![t]
    } else {
        postorder(spec_topleft(t), stop) + postorder(spec_topright(t), stop) + postorder(
            spec_bottomleft(t),
            stop,
        ) + postorder(spec_bottomright(t), stop) + seq![t]
    }
}

/// What remains to be emitted for one stack frame whose children numbered
/// below `c` are already fully emitted: the subtrees of children `c..4`, then
/// the frame's own tile.
pub open spec fn frame_rest(t: TileId, c: int, stop: int) -> Seq<TileId>
    decreases 4 - c,
{
    if c >= 4 {
        seq![t]
    } else {
        postorder(spec_child(t, c), stop) + frame_rest(t, c + 1, stop)
    }
}

/// One frame of the explicit traversal stack: the tile under visit, the index
/// of its parent's frame (or -1 at the root), and the next child to visit.
#[derive(Clone, Copy)]
pub struct TileQTreeIndexNode {
    pub tile_id: TileId,
    pub parent_index: isize,
    pub child_id: usize,
}

impl TileQTreeIndexNode {
    pub fn new(tile_id: TileId, parent_index: isize) -> (r: Self)
        ensures
            r == (TileQTreeIndexNode { tile_id, parent_index, child_id: 0 }),
    {
        TileQTreeIndexNode { tile_id, parent_index, child_id: 0 }
    }
}

/// Post-order walk of a quadtree, driven by an explicit stack instead of
/// recursion. [`TileQTreeIterator::next`] emits exactly the sequence
/// [`postorder`]`(root, stop_layer)`, one tile per call.
pub struct TileQTreeIterator {
    stack: Vec<TileQTreeIndexNode>,
    stop_layer: i32,
}

impl TileQTreeIterator {
    /// The stack forms a single root-to-node path: each frame's tile is the
    /// current child of the frame below it.
    pub closed spec fn wf(&self) -> bool {
        &&& forall|i: int|
            0 <= i < self.stack.len() ==> (#[trigger] self.stack[i].parent_index) == i - 1
        &&& forall|i: int|
            0 <= i < self.stack.len() ==> subtree_ok(#[trigger] self.stack[i].tile_id, self.stop_layer as int)
        &&& forall|i: int|
            0 <= i < self.stack.len() - 1 ==> {
                let f = #[trigger] self.stack[i];
                &&& f.tile_id.scale > self.stop_layer
                &&& f.child_id <= 3
                &&& self.stack[i + 1].tile_id == spec_child(f.tile_id, f.child_id as int)
            }
        &&& self.stack.len() > 0 ==> {
            let top = self.stack@.last();
            &&& top.child_id <= 4
            &&& (top.child_id > 0 ==> top.tile_id.scale > self.stop_layer)
        }
        &&& forall|i: int|
            0 <= i < self.stack.len() ==> (#[trigger] self.stack[i].tile_id.scale) as int
                == self.stack[0].tile_id.scale - i
        &&& self.stack.len() > 0 ==> self.stack[0].tile_id.scale - self.stop_layer < 0x4000_0000
        &&& self.stack.len() <= 0x4000_0000
    }

    /// The tiles this iterator will still emit, in order.
    pub closed spec fn rem(&self) -> Seq<TileId> {
        if self.stack.len() == 0 {
            Seq::empty()
        } else {
            Self::top_rem(self.stack@.last(), self.stop_layer as int) + Self::below_rem(
                self.stack@.drop_last(),
                self.stop_layer as int,
            )
        }
    }

    spec fn top_rem(f: TileQTreeIndexNode, stop: int) -> Seq<TileId> {
        if f.tile_id.scale <= stop {
            seq![f.tile_id]
        } else {
            frame_rest(f.tile_id, f.child_id as int, stop)
        }
    }

    spec fn below_rem(stack: Seq<TileQTreeIndexNode>, stop: int) -> Seq<TileId>
        decreases stack.len(),
    {
        if stack.len() == 0 {
            Seq::empty()
        } else {
            frame_rest(stack.last().tile_id, stack.last().child_id + 1, stop) + Self::below_rem(
                stack.drop_last(),
                stop,
            )
        }
    }

    pub fn new(root: TileId, stop_layer: i32) -> (r: Self)
        requires
            subtree_ok(root, stop_layer as int),
            root.scale - stop_layer < 0x4000_0000,
        ensures
            r.wf(),
            r.rem() == postorder(root, stop_layer as int),
    {
        let mut stack = Vec::new();
        stack.push(TileQTreeIndexNode::new(root, -1));
        let r = TileQTreeIterator { stack, stop_layer };
        proof {
            assert(r.stack@.drop_last() =~= Seq::empty());
            if root.scale > stop_layer {
                lemma_frame_rest_zero(root, stop_layer as int);
            }
            assert(r.rem() =~= postorder(root, stop_layer as int));
        }
        r
    }

    /// True when the frame on top of the stack still has children to descend
    /// into.
    fn top_expandable(&self) -> (b: bool)
        requires
            self.stack.len() > 0,
        ensures
            b == (self.stack@.last().tile_id.scale > self.stop_layer && self.stack@.last().child_id
                <= 3),
    {
        let f = &self.stack[self.stack.len() - 1];
        f.tile_id.scale > self.stop_layer && f.child_id <= 3
    }

    /// Emits the next tile of the post-order walk, or `None` once every tile
    /// has been emitted.
    pub fn next(&mut self) -> (r: Option<TileId>)
        requires
            old(self).wf(),
        ensures
            final(self).wf(),
            old(self).rem().len() == 0 ==> r is None && final(self).rem().len() == 0,
            old(self).rem().len() > 0 ==> r == Some(old(self).rem()[0]) && final(self).rem()
                == old(self).rem().drop_first(),
    {
        if self.stack.len() == 0 {
            assert(old(self).rem().len() == 0);
            return None;
        }
        proof {
            self.lemma_rem_nonempty();
        }
        while self.top_expandable()
            invariant
                self.wf(),
                self.stack.len() > 0,
                self.stop_layer == old(self).stop_layer,
                self.rem() == old(self).rem(),
            decreases self.stack@.last().tile_id.scale - self.stop_layer,
        {
            let i = self.stack.len() - 1;
            let f = self.stack[i];
            let ghost prev = *self;
            let ghost stop = self.stop_layer as int;
            proof {
                assert(subtree_ok(f.tile_id, stop));
                reveal_with_fuel(subtree_ok, 2);
            }
            let child = if f.child_id == 0 {
                f.tile_id.topleft()
            } else if f.child_id == 1 {
                f.tile_id.topright()
            } else if f.child_id == 2 {
                f.tile_id.bottomleft()
            } else {
                f.tile_id.bottomright()
            };
            self.stack.push(TileQTreeIndexNode::new(child, i as isize));
            proof {
                Self::lemma_push_keeps_rem(prev, *self, f, child);
            }
        }
        let i = self.stack.len() - 1;
        let f = self.stack[i];
        let ghost prev = *self;
        if f.parent_index >= 0 {
            let p = f.parent_index as usize;
            let mut node = self.stack[p];
            proof {
                assert(prev.stack[p as int].child_id <= 3);
            }
            node.child_id = node.child_id + 1;
            self.stack.set(p, node);
        }
        self.stack.pop();
        proof {
            Self::lemma_pop_steps_rem(prev, *self, f);
        }
        Some(f.tile_id)
    }

    #[verifier::rlimit(100)]
    #[verifier::spinoff_prover]
    proof fn lemma_push_keeps_rem(
        prev: Self,
        cur: Self,
        f: TileQTreeIndexNode,
        child: TileId,
    )
        requires
            prev.wf(),
            prev.stack.len() > 0,
            prev.stack@.last() == f,
            f.tile_id.scale > prev.stop_layer,
            f.child_id <= 3,
            subtree_ok(f.tile_id, prev.stop_layer as int),
            child == spec_child(f.tile_id, f.child_id as int),
            cur.stop_layer == prev.stop_layer,
            cur.stack@ == prev.stack@.push(
                TileQTreeIndexNode { tile_id: child, parent_index: (prev.stack.len() - 1) as isize, child_id: 0 },
            ),
        ensures
            cur.wf(),
            cur.rem() == prev.rem(),
    {
        Self::lemma_push_keeps_wf(prev, cur, f, child);
        Self::lemma_push_rem_only(prev, cur, f, child);
    }

    /// The remaining-emission sequence is untouched by descending into a
    /// child: the child's whole subtree moves from the parent's pending work
    /// to a frame of its own.
    #[verifier::spinoff_prover]
    proof fn lemma_push_rem_only(prev: Self, cur: Self, f: TileQTreeIndexNode, child: TileId)
        requires
            prev.stack.len() > 0,
            prev.stack@.last() == f,
            f.tile_id.scale > prev.stop_layer,
            f.child_id <= 3,
            subtree_ok(f.tile_id, prev.stop_layer as int),
            child == spec_child(f.tile_id, f.child_id as int),
            cur.stop_layer == prev.stop_layer,
            cur.stack@ == prev.stack@.push(
                TileQTreeIndexNode { tile_id: child, parent_index: (prev.stack.len() - 1) as isize, child_id: 0 },
            ),
        ensures
            cur.rem() == prev.rem(),
    {
        let stop = prev.stop_layer as int;
        // the new top owes the whole subtree of `child`; the frame below it,
        // now buried, owes its children after `f.child_id`.
        let a = postorder(child, stop);
        let b = frame_rest(f.tile_id, f.child_id + 1, stop);
        let d = Self::below_rem(prev.stack@.drop_last(), stop);
        assert(cur.stack@.drop_last() =~= prev.stack@);
        lemma_subtree_ok_child(f.tile_id, stop, f.child_id as int);
        if child.scale > stop {
            lemma_frame_rest_zero(child, stop);
        }
        assert(Self::top_rem(cur.stack@.last(), stop) == a);
        assert(Self::below_rem(prev.stack@, stop) == b + d);
        assert(Self::top_rem(f, stop) == frame_rest(f.tile_id, f.child_id as int, stop));
        assert(frame_rest(f.tile_id, f.child_id as int, stop) == a + b);
        assert(prev.rem() == (a + b) + d);
        assert(cur.rem() == a + (b + d));
        assert((a + b) + d =~= a + (b + d));
    }

    #[verifier::spinoff_prover]
    proof fn lemma_push_keeps_wf(prev: Self, cur: Self, f: TileQTreeIndexNode, child: TileId)
        requires
            prev.wf(),
            prev.stack.len() > 0,
            prev.stack@.last() == f,
            f.tile_id.scale > prev.stop_layer,
            f.child_id <= 3,
            subtree_ok(f.tile_id, prev.stop_layer as int),
            child == spec_child(f.tile_id, f.child_id as int),
            cur.stop_layer == prev.stop_layer,
            cur.stack@ == prev.stack@.push(
                TileQTreeIndexNode { tile_id: child, parent_index: (prev.stack.len() - 1) as isize, child_id: 0 },
            ),
        ensures
            cur.wf(),
    {
        let stop = prev.stop_layer as int;
        lemma_subtree_ok_child(f.tile_id, stop, f.child_id as int);
        assert forall|i: int| 0 <= i < cur.stack.len() implies subtree_ok(
            (#[trigger] cur.stack[i]).tile_id,
            stop,
        ) by {
            if i < prev.stack.len() {
                assert(cur.stack[i] == prev.stack[i]);
            } else {
                assert(cur.stack[i].tile_id == child);
            }
        }
    }

    proof fn lemma_pop_steps_rem(prev: Self, cur: Self, f: TileQTreeIndexNode)
        requires
            prev.wf(),
            prev.stack.len() > 0,
            prev.stack@.last() == f,
            !(f.tile_id.scale > prev.stop_layer && f.child_id <= 3),
            cur.stop_layer == prev.stop_layer,
            prev.stack.len() == 1 ==> cur.stack@ == prev.stack@.drop_last(),
            prev.stack.len() > 1 ==> prev.stack[prev.stack.len() - 2].child_id + 1 <= usize::MAX
                && cur.stack@ == prev.stack@.update(
                prev.stack.len() - 2,
                TileQTreeIndexNode {
                    tile_id: prev.stack[prev.stack.len() - 2].tile_id,
                    parent_index: prev.stack[prev.stack.len() - 2].parent_index,
                    child_id: (prev.stack[prev.stack.len() - 2].child_id + 1) as usize,
                },
            ).drop_last(),
        ensures
            cur.wf(),
            prev.rem().len() > 0,
            prev.rem()[0] == f.tile_id,
            cur.rem() == prev.rem().drop_first(),
    {
        let stop = prev.stop_layer as int;
        assert(Self::top_rem(f, stop) =~= seq![f.tile_id]);
        if prev.stack.len() == 1 {
            assert(prev.stack@.drop_last() =~= Seq::<TileQTreeIndexNode>::empty());
            assert(prev.rem() =~= seq![f.tile_id]);
            assert(cur.rem() =~= prev.rem().drop_first());
            assert(cur.wf());
        } else {
            let n = prev.stack.len() as int;
            let p = prev.stack[n - 2];
            let p2 = cur.stack[n - 2];
            assert(p2.tile_id == p.tile_id && p2.child_id == p.child_id + 1);
            assert(p.tile_id.scale > stop && p.child_id <= 3);
            assert forall|i: int| 0 <= i < cur.stack.len() implies subtree_ok(
                (#[trigger] cur.stack[i]).tile_id,
                stop,
            ) by {
                assert(cur.stack[i].tile_id == prev.stack[i].tile_id);
            }
            assert(cur.wf());
            assert(prev.rem() =~= seq![f.tile_id] + Self::below_rem(prev.stack@.drop_last(), stop));
            assert(Self::below_rem(prev.stack@.drop_last(), stop) == frame_rest(
                p.tile_id,
                p.child_id + 1,
                stop,
            ) + Self::below_rem(prev.stack@.drop_last().drop_last(), stop));
            assert(Self::top_rem(cur.stack@.last(), stop) == frame_rest(p.tile_id, p.child_id + 1, stop));
            assert(cur.stack@.drop_last() =~= prev.stack@.drop_last().drop_last());
            assert(cur.rem() =~= prev.rem().drop_first());
        }
    }
    /// A well-formed iterator with a non-empty stack still has something to
    /// emit.
    proof fn lemma_rem_nonempty(&self)
        requires
            self.wf(),
            self.stack.len() > 0,
        ensures
            self.rem().len() > 0,
    {
        let stop = self.stop_layer as int;
        let top = self.stack@.last();
        if top.tile_id.scale <= stop {
            assert(Self::top_rem(top, stop).len() > 0);
        } else {
            lemma_frame_rest_len_pos(top.tile_id, top.child_id as int, stop);
        }
    }
}

/// Under `subtree_ok`, every child of a node above the stop layer is itself
/// `subtree_ok`, and the node's coordinates leave room to double.
proof fn lemma_subtree_ok_child(t: TileId, stop: int, c: int)
    requires
        subtree_ok(t, stop),
        t.scale > stop,
    ensures
        i32::MIN < t.scale,
        -0x4000_0000 <= t.x < 0x3FFF_FFFF,
        -0x4000_0000 <= t.z < 0x3FFF_FFFF,
        subtree_ok(spec_child(t, c), stop),
{
}

/// A frame's remaining-emission sequence always ends with the frame's own
/// tile, so it is never empty.
proof fn lemma_frame_rest_len_pos(t: TileId, c: int, stop: int)
    ensures
        frame_rest(t, c, stop).len() > 0,
    decreases 4 - c,
{
    if c < 4 {
        lemma_frame_rest_len_pos(t, c + 1, stop);
    }
}

/// Powers of four.
pub open spec fn pow4(n: nat) -> nat
    decreases n,
{
    if n == 0 {
        1
    } else {
        4 * pow4((n - 1) as nat)
    }
}

/// Node count of the full quadtree with `d` levels below its root.
pub open spec fn qtree_size(d: nat) -> nat
    decreases d,
{
    if d == 0 {
        1
    } else {
        1 + 4 * qtree_size((d - 1) as nat)
    }
}

/// The closed form of the quadtree node count: the geometric sum
/// `1 + 4 + ... + 4^d` equals `(4^(d+1) - 1) / 3`.
pub proof fn lemma_qtree_size_closed(d: nat)
    ensures
        3 * qtree_size(d) + 1 == pow4(d + 1),
        qtree_size(d) == (pow4((d + 1) as nat) - 1) / 3,
    decreases d,
{
    if d == 0 {
        assert(qtree_size(0) == 1);
        assert(pow4(1) == 4 * pow4(0));
        assert(pow4(0) == 1);
    } else {
        lemma_qtree_size_closed((d - 1) as nat);
        assert(qtree_size(d) == 1 + 4 * qtree_size((d - 1) as nat));
        assert(pow4(d + 1) == 4 * pow4(((d + 1) - 1) as nat));
    }
    let q = qtree_size(d) as int;
    vstd::arithmetic::div_mod::lemma_div_multiples_vanish(q, 3);
    assert(pow4((d + 1) as nat) - 1 == 3 * q);
}

/// A walk down to `stop` emits every node of the full quadtree under `t`
/// exactly `qtree_size(scale - stop)` entries.
pub proof fn lemma_postorder_len(t: TileId, stop: int)
    requires
        i32::MIN <= stop <= t.scale,
    ensures
        postorder(t, stop).len() == qtree_size((t.scale - stop) as nat),
    decreases t.scale - stop,
{
    if t.scale > stop {
        lemma_postorder_len(spec_topleft(t), stop);
        lemma_postorder_len(spec_topright(t), stop);
        lemma_postorder_len(spec_bottomleft(t), stop);
        lemma_postorder_len(spec_bottomright(t), stop);
    }
}

/// A walk from scale `s` down to the stop layer emits exactly
/// `(4^(d + 1) - 1) / 3` tiles, `d` being the depth `s - stop`.
pub proof fn lemma_walk_count(t: TileId, stop: int)
    requires
        i32::MIN <= stop <= t.scale,
    ensures
        3 * postorder(t, stop).len() + 1 == pow4((t.scale - stop + 1) as nat),
        postorder(t, stop).len() == (pow4((t.scale - stop + 1) as nat) - 1) / 3,
{
    lemma_postorder_len(t, stop);
    lemma_qtree_size_closed((t.scale - stop) as nat);
}

/// The subtree of `t` covers a square coordinate window at every finer scale;
/// this says `u` lies inside it.
pub open spec fn in_subtree(t: TileId, u: TileId, stop: int) -> bool {
    if t.scale <= stop {
        u == t
    } else {
        let e = pow2((t.scale - u.scale) as nat) as int;
        &&& stop <= u.scale <= t.scale
        &&& t.x * e <= u.x < (t.x + 1) * e
        &&& t.z * e <= u.z < (t.z + 1) * e
    }
}

/// A tile is inside its own subtree window.
proof fn lemma_in_subtree_self(t: TileId, stop: int)
    ensures
        in_subtree(t, t, stop),
{
    if t.scale > stop {
        lemma2_to64();
        assert(pow2(0) == 1);
        let e = pow2((t.scale - t.scale) as nat) as int;
        assert(e == 1);
        assert(t.x * e == t.x && (t.x + 1) * e == t.x + 1) by (nonlinear_arith)
            requires
                e == 1,
        ;
        assert(t.z * e == t.z && (t.z + 1) * e == t.z + 1) by (nonlinear_arith)
            requires
                e == 1,
        ;
    }
}

/// Containment in a child's window implies containment in the parent's, and
/// the contained tile sits strictly below the parent.
proof fn lemma_in_subtree_step(t: TileId, stop: int, c: int, u: TileId)
    requires
        subtree_ok(t, stop),
        t.scale > stop,
        in_subtree(spec_child(t, c), u, stop),
    ensures
        in_subtree(t, u, stop),
        u.scale < t.scale,
{
    lemma_subtree_ok_child(t, stop, c);
    let ch = spec_child(t, c);
    lemma2_to64();
    if ch.scale <= stop {
        // `u` is the child itself, one level down and inside the doubled window
        assert(pow2((t.scale - u.scale) as nat) == 2) by {
            assert(t.scale - u.scale == 1);
        }
    } else {
        let e2 = pow2((ch.scale - u.scale) as nat) as int;
        let e = pow2((t.scale - u.scale) as nat) as int;
        assert(e == 2 * e2) by {
            vstd::arithmetic::power2::lemma_pow2_unfold((t.scale - u.scale) as nat);
        }
        assert(e2 >= 1) by {
            vstd::arithmetic::power2::lemma_pow2_pos((ch.scale - u.scale) as nat);
        }
        assert(ch.x * e2 <= u.x < (ch.x + 1) * e2);
        assert(2 * t.x <= ch.x && ch.x + 1 <= 2 * t.x + 2);
        assert(t.x * e <= u.x < (t.x + 1) * e) by (nonlinear_arith)
            requires
                e == 2 * e2,
                e2 >= 1,
                ch.x * e2 <= u.x < (ch.x + 1) * e2,
                2 * t.x <= ch.x,
                ch.x + 1 <= 2 * t.x + 2,
        ;
        assert(t.z * e <= u.z < (t.z + 1) * e) by (nonlinear_arith)
            requires
                e == 2 * e2,
                e2 >= 1,
                ch.z * e2 <= u.z < (ch.z + 1) * e2,
                2 * t.z <= ch.z,
                ch.z + 1 <= 2 * t.z + 2,
        ;
    }
}

/// The windows of two different children never overlap.
proof fn lemma_in_subtree_disjoint(t: TileId, stop: int, c1: int, c2: int, u: TileId)
    requires
        subtree_ok(t, stop),
        t.scale > stop,
        0 <= c1 < 4,
        0 <= c2 < 4,
        c1 != c2,
        in_subtree(spec_child(t, c1), u, stop),
    ensures
        !in_subtree(spec_child(t, c2), u, stop),
{
    lemma_subtree_ok_child(t, stop, c1);
    let a = spec_child(t, c1);
    let b = spec_child(t, c2);
    lemma2_to64();
    if in_subtree(b, u, stop) {
        if a.scale <= stop {
            // both children are terminal at the same scale, so `u` would have
            // to be two different tiles at once
            assert(u == a && u == b);
        } else {
            let e = pow2((a.scale - u.scale) as nat) as int;
            assert(e >= 1) by {
                vstd::arithmetic::power2::lemma_pow2_pos((a.scale - u.scale) as nat);
            }
            assert(a.x * e <= u.x < (a.x + 1) * e);
            assert(b.x * e <= u.x < (b.x + 1) * e);
            assert(a.z * e <= u.z < (a.z + 1) * e);
            assert(b.z * e <= u.z < (b.z + 1) * e);
            if a.x != b.x {
                assert(a.x + 1 <= b.x || b.x + 1 <= a.x);
                assert(false) by (nonlinear_arith)
                    requires
                        e >= 1,
                        a.x * e <= u.x < (a.x + 1) * e,
                        b.x * e <= u.x < (b.x + 1) * e,
                        a.x + 1 <= b.x || b.x + 1 <= a.x,
                ;
            } else {
                assert(a.z != b.z);
                assert(a.z + 1 <= b.z || b.z + 1 <= a.z);
                assert(false) by (nonlinear_arith)
                    requires
                        e >= 1,
                        a.z * e <= u.z < (a.z + 1) * e,
                        b.z * e <= u.z < (b.z + 1) * e,
                        a.z + 1 <= b.z || b.z + 1 <= a.z,
                ;
            }
        }
    }
}

/// Every emitted tile lies inside the window of the walk's root.
pub proof fn lemma_postorder_in_subtree(t: TileId, stop: int)
    requires
        subtree_ok(t, stop),
    ensures
        forall|i: int|
            0 <= i < postorder(t, stop).len() ==> in_subtree(t, #[trigger] postorder(t, stop)[i], stop),
    decreases t.scale - stop,
{
    let s = postorder(t, stop);
    if t.scale <= stop {
        assert forall|i: int| 0 <= i < s.len() implies in_subtree(t, s[i], stop) by {
            assert(s[i] == t);
            lemma_in_subtree_self(t, stop);
        }
    } else {
        lemma_subtree_ok_child(t, stop, 0);
        lemma_subtree_ok_child(t, stop, 1);
        lemma_subtree_ok_child(t, stop, 2);
        lemma_subtree_ok_child(t, stop, 3);
        lemma_postorder_in_subtree(spec_topleft(t), stop);
        lemma_postorder_in_subtree(spec_topright(t), stop);
        lemma_postorder_in_subtree(spec_bottomleft(t), stop);
        lemma_postorder_in_subtree(spec_bottomright(t), stop);
        let p0 = postorder(spec_child(t, 0), stop);
        let p1 = postorder(spec_child(t, 1), stop);
        let p2 = postorder(spec_child(t, 2), stop);
        let p3 = postorder(spec_child(t, 3), stop);
        assert forall|i: int| 0 <= i < s.len() implies in_subtree(t, s[i], stop) by {
            let n0 = p0.len() as int;
            let n1 = n0 + p1.len();
            let n2 = n1 + p2.len();
            let n3 = n2 + p3.len();
            if i < n0 {
                assert(s[i] == p0[i]);
                lemma_in_subtree_step(t, stop, 0, p0[i]);
            } else if i < n1 {
                assert(s[i] == p1[i - n0]);
                lemma_in_subtree_step(t, stop, 1, p1[i - n0]);
            } else if i < n2 {
                assert(s[i] == p2[i - n1]);
                lemma_in_subtree_step(t, stop, 2, p2[i - n1]);
            } else if i < n3 {
                assert(s[i] == p3[i - n2]);
                lemma_in_subtree_step(t, stop, 3, p3[i - n2]);
            } else {
                assert(s[i] == t);
                lemma_in_subtree_self(t, stop);
            }
        }
    }
}

/// The walk emits every node of the subtree exactly once: the emitted
/// sequence has no duplicates.
pub proof fn lemma_postorder_no_duplicates(t: TileId, stop: int)
    requires
        subtree_ok(t, stop),
    ensures
        postorder(t, stop).no_duplicates(),
    decreases t.scale - stop,
{
    let s = postorder(t, stop);
    if t.scale > stop {
        lemma_subtree_ok_child(t, stop, 0);
        lemma_subtree_ok_child(t, stop, 1);
        lemma_subtree_ok_child(t, stop, 2);
        lemma_subtree_ok_child(t, stop, 3);
        lemma_postorder_no_duplicates(spec_topleft(t), stop);
        lemma_postorder_no_duplicates(spec_topright(t), stop);
        lemma_postorder_no_duplicates(spec_bottomleft(t), stop);
        lemma_postorder_no_duplicates(spec_bottomright(t), stop);
        lemma_postorder_in_subtree(spec_topleft(t), stop);
        lemma_postorder_in_subtree(spec_topright(t), stop);
        lemma_postorder_in_subtree(spec_bottomleft(t), stop);
        lemma_postorder_in_subtree(spec_bottomright(t), stop);
        let p0 = postorder(spec_child(t, 0), stop);
        let p1 = postorder(spec_child(t, 1), stop);
        let p2 = postorder(spec_child(t, 2), stop);
        let p3 = postorder(spec_child(t, 3), stop);
        assert forall|i: int, j: int, c1: int, c2: int|
            0 <= c1 < 4 && 0 <= c2 < 4 && c1 != c2 && 0 <= i < postorder(spec_child(t, c1), stop).len()
                && 0 <= j < postorder(spec_child(t, c2), stop).len() implies #[trigger] postorder(
            spec_child(t, c1),
            stop,
        )[i] != #[trigger] postorder(spec_child(t, c2), stop)[j] by {
            let u = postorder(spec_child(t, c1), stop)[i];
            if u == postorder(spec_child(t, c2), stop)[j] {
                lemma_in_subtree_disjoint(t, stop, c1, c2, u);
            }
        }
        assert forall|c: int, i: int|
            0 <= c < 4 && 0 <= i < postorder(spec_child(t, c), stop).len() implies #[trigger] postorder(
            spec_child(t, c),
            stop,
        )[i] != t by {
            let u = postorder(spec_child(t, c), stop)[i];
            if u == t {
                lemma_in_subtree_step(t, stop, c, u);
            }
        }
        lemma_no_dup_in_concat(p0, p1);
        lemma_no_dup_in_concat(p0 + p1, p2);
        lemma_no_dup_in_concat(p0 + p1 + p2, p3);
        lemma_no_dup_in_concat(p0 + p1 + p2 + p3, seq![t]);
        assert(s == p0 + p1 + p2 + p3 + seq![t]);
    }
}

/// The walk's root is always the last tile emitted.
pub proof fn lemma_postorder_last(t: TileId, stop: int)
    ensures
        postorder(t, stop).len() > 0,
        postorder(t, stop).last() == t,
{
}

/// Every tile above the stop layer is emitted strictly after each of its four
/// children: child `c` of the tile at position `i` appears at some earlier
/// position.
pub proof fn lemma_postorder_children_first(t: TileId, stop: int, i: int, c: int)
    requires
        subtree_ok(t, stop),
        0 <= i < postorder(t, stop).len(),
        postorder(t, stop)[i].scale > stop,
        0 <= c < 4,
    ensures
        exists|j: int|
            0 <= j < i && (#[trigger] postorder(t, stop)[j]) == spec_child(postorder(t, stop)[i], c),
    decreases t.scale - stop,
{
    let s = postorder(t, stop);
    if t.scale <= stop {
        // the only emitted tile sits at or below the stop layer, against the
        // premise on `i`
        assert(s =~= seq![t]);
        assert(s[i] == t);
        assert(t.scale > stop);
    } else {
        lemma_subtree_ok_child(t, stop, 0);
        lemma_subtree_ok_child(t, stop, 1);
        lemma_subtree_ok_child(t, stop, 2);
        lemma_subtree_ok_child(t, stop, 3);
        let p0 = postorder(spec_child(t, 0), stop);
        let p1 = postorder(spec_child(t, 1), stop);
        let p2 = postorder(spec_child(t, 2), stop);
        let p3 = postorder(spec_child(t, 3), stop);
        let n0 = p0.len() as int;
        let n1 = n0 + p1.len();
        let n2 = n1 + p2.len();
        let n3 = n2 + p3.len();
        if i < n0 {
            assert(s[i] == p0[i]);
            lemma_postorder_children_first(spec_child(t, 0), stop, i, c);
            let j0 = choose|j: int|
                0 <= j < i && (#[trigger] postorder(spec_child(t, 0), stop)[j]) == spec_child(
                    postorder(spec_child(t, 0), stop)[i],
                    c,
                );
            assert(s[j0] == p0[j0]);
            assert(0 <= j0 < i && postorder(t, stop)[j0] == spec_child(postorder(t, stop)[i], c));
        } else if i < n1 {
            assert(s[i] == p1[i - n0]);
            lemma_postorder_children_first(spec_child(t, 1), stop, i - n0, c);
            let j0 = choose|j: int|
                0 <= j < i - n0 && (#[trigger] postorder(spec_child(t, 1), stop)[j]) == spec_child(
                    postorder(spec_child(t, 1), stop)[i - n0],
                    c,
                );
            assert(s[n0 + j0] == p1[j0]);
            assert(0 <= n0 + j0 < i && postorder(t, stop)[n0 + j0] == spec_child(
                postorder(t, stop)[i],
                c,
            ));
        } else if i < n2 {
            assert(s[i] == p2[i - n1]);
            lemma_postorder_children_first(spec_child(t, 2), stop, i - n1, c);
            let j0 = choose|j: int|
                0 <= j < i - n1 && (#[trigger] postorder(spec_child(t, 2), stop)[j]) == spec_child(
                    postorder(spec_child(t, 2), stop)[i - n1],
                    c,
                );
            assert(s[n1 + j0] == p2[j0]);
            assert(0 <= n1 + j0 < i && postorder(t, stop)[n1 + j0] == spec_child(
                postorder(t, stop)[i],
                c,
            ));
        } else if i < n3 {
            assert(s[i] == p3[i - n2]);
            lemma_postorder_children_first(spec_child(t, 3), stop, i - n2, c);
            let j0 = choose|j: int|
                0 <= j < i - n2 && (#[trigger] postorder(spec_child(t, 3), stop)[j]) == spec_child(
                    postorder(spec_child(t, 3), stop)[i - n2],
                    c,
                );
            assert(s[n2 + j0] == p3[j0]);
            assert(0 <= n2 + j0 < i && postorder(t, stop)[n2 + j0] == spec_child(
                postorder(t, stop)[i],
                c,
            ));
        } else {
            assert(s[i] == t);
            lemma_postorder_last(spec_child(t, c), stop);
            if c == 0 {
                assert(s[n0 - 1] == p0[n0 - 1]);
                assert(postorder(t, stop)[n0 - 1] == spec_child(postorder(t, stop)[i], c));
            } else if c == 1 {
                assert(s[n1 - 1] == p1[p1.len() - 1]);
                assert(postorder(t, stop)[n1 - 1] == spec_child(postorder(t, stop)[i], c));
            } else if c == 2 {
                assert(s[n2 - 1] == p2[p2.len() - 1]);
                assert(postorder(t, stop)[n2 - 1] == spec_child(postorder(t, stop)[i], c));
            } else {
                assert(s[n3 - 1] == p3[p3.len() - 1]);
                assert(postorder(t, stop)[n3 - 1] == spec_child(postorder(t, stop)[i], c));
            }
        }
    }
}

/// A fully unvisited frame owes exactly the postorder of its subtree.
proof fn lemma_frame_rest_zero(t: TileId, stop: int)
    requires
        t.scale > stop,
        t.scale > i32::MIN,
    ensures
        frame_rest(t, 0, stop) == postorder(t, stop),
{
    reveal_with_fuel(frame_rest, 5);
    assert(frame_rest(t, 0, stop) =~= postorder(spec_topleft(t), stop) + postorder(
        spec_topright(t),
        stop,
    ) + postorder(spec_bottomleft(t), stop) + postorder(spec_bottomright(t), stop) + seq![t]);
    assert(frame_rest(t, 0, stop) =~= postorder(t, stop));
}

} // verus!
