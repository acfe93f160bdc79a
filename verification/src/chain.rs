//! The mathematical model of the chain store, and what holds of it.

use vstd::prelude::*;
use vstd::seq_lib::seq_to_set_is_finite;
use crate::block::BlockView;

verus! {

/// The state of a chain store: the blocks that were admitted and their
/// heights, both keyed by digest, the digest of the tip, and the digests in
/// the order in which their blocks were admitted.
pub struct ChainView {
    pub blocks: Map<Seq<u8>, BlockView>,
    pub heights: Map<Seq<u8>, nat>,
    pub tip: Seq<u8>,
    pub order: Seq<Seq<u8>>,
}

impl ChainView {
    /// The store that holds the genesis block and nothing else.
    pub open spec fn genesis() -> ChainView {
        let g = BlockView::genesis().digest();
        ChainView {
            blocks: Map::empty().insert(g, BlockView::genesis()),
            heights: Map::empty().insert(g, 0nat),
            tip: g,
            order: seq![g],
        }
    }

    /// A block is admitted when its digest is new and its parent is known.
    pub open spec fn admits(self, b: BlockView) -> bool {
        !self.blocks.contains_key(b.digest()) && self.heights.contains_key(b.parent)
    }

    /// A block is an orphan when its digest is new and its parent is
    /// unknown.
    pub open spec fn is_orphan(self, b: BlockView) -> bool {
        !self.blocks.contains_key(b.digest()) && !self.heights.contains_key(b.parent)
    }

    /// The store after `b` was offered to it. A block that is admitted gets
    /// the height of its parent plus one, and becomes the tip if that is
    /// more than the height of the tip. A block that is not admitted leaves
    /// the store as it was.
    pub open spec fn insert(self, b: BlockView) -> ChainView {
        if self.admits(b) {
            let h = b.digest();
            let height = self.heights[b.parent] + 1;
            ChainView {
                blocks: self.blocks.insert(h, b),
                heights: self.heights.insert(h, height),
                tip: if height > self.heights[self.tip] {
                    h
                } else {
                    self.tip
                },
                order: self.order.push(h),
            }
        } else {
            self
        }
    }

    /// The store after the blocks of `bs` were offered to it one by one.
    pub open spec fn insert_all(self, bs: Seq<BlockView>) -> ChainView
        decreases bs.len(),
    {
        if bs.len() == 0 {
            self
        } else {
            self.insert_all(bs.drop_last()).insert(bs.last())
        }
    }

    /// The block is new and names the tip as its parent.
    pub open spec fn extends_tip(self, b: BlockView) -> bool {
        b.parent == self.tip && !self.blocks.contains_key(b.digest())
    }

    /// Each block of `bs` extends the tip that the blocks before it left.
    pub open spec fn each_extends_tip(self, bs: Seq<BlockView>) -> bool {
        forall|i: int|
            0 <= i < bs.len() ==> #[trigger] self.insert_all(bs.take(i)).extends_tip(bs[i])
    }

    /// The block that was admitted as the `i`-th.
    pub open spec fn block_at(self, i: int) -> BlockView {
        self.blocks[self.order[i]]
    }

    /// The height of the block that was admitted as the `i`-th.
    pub open spec fn height_at(self, i: int) -> nat {
        self.heights[self.order[i]]
    }

    /// The `j`-th block came before the `i`-th, is its parent, and stands
    /// one below it.
    pub open spec fn linked(self, i: int, j: int) -> bool {
        &&& 0 <= j < i
        &&& self.order[j] == self.block_at(i).parent
        &&& self.height_at(i) == self.height_at(j) + 1
    }

    /// The parent of the `i`-th block came before it and stands one below
    /// it.
    pub open spec fn has_parent(self, i: int) -> bool {
        exists|j: int| #[trigger] self.linked(i, j)
    }

    /// The height of the tip.
    pub open spec fn tip_height(self) -> nat {
        self.heights[self.tip]
    }

    /// What holds of every store: blocks and heights have the same keys,
    /// each key once in the order of admission; every block is stored under
    /// its own digest; the genesis block came first and has height 0; every
    /// other block came after its parent and stands one above it; and the
    /// tip is the first block, in the order of admission, among those of the
    /// greatest height.
    pub open spec fn wf(self) -> bool {
        &&& self.order.len() > 0
        &&& self.order.no_duplicates()
        &&& forall|h: Seq<u8>| self.blocks.contains_key(h) <==> self.order.contains(h)
        &&& forall|h: Seq<u8>| self.heights.contains_key(h) <==> self.order.contains(h)
        &&& self.block_at(0) == BlockView::genesis()
        &&& self.height_at(0) == 0
        &&& forall|i: int|
            0 <= i < self.order.len() ==> (#[trigger] self.block_at(i)).digest() == self.order[i]
        &&& forall|i: int| 0 < i < self.order.len() ==> #[trigger] self.has_parent(i)
        &&& self.order.contains(self.tip)
        &&& forall|i: int|
            0 <= i < self.order.len() ==> #[trigger] self.height_at(i) <= self.tip_height()
        &&& forall|i: int|
            0 <= i < self.order.len() && #[trigger] self.height_at(i) == self.tip_height()
                ==> self.order.index_of(self.tip) <= i
    }

    /// The digests on the way to `h`, lowest first and `h` last, `n` of
    /// them: `h` itself after the digests on the way to its parent.
    pub open spec fn path_to(self, h: Seq<u8>, n: nat) -> Seq<Seq<u8>>
        decreases n,
    {
        if n == 0 {
            Seq::empty()
        } else {
            self.path_to(self.blocks[h].parent, (n - 1) as nat).push(h)
        }
    }

    /// The longest chain: the digests from the block just above genesis up
    /// to the tip.
    pub open spec fn longest_chain(self) -> Seq<Seq<u8>> {
        self.path_to(self.tip, self.tip_height())
    }
}

/// In a sequence without duplicates, an item is found where it stands.
pub proof fn lemma_index_of_unique(s: Seq<Seq<u8>>, i: int)
    requires
        s.no_duplicates(),
        0 <= i < s.len(),
    ensures
        s.contains(s[i]),
        s.index_of(s[i]) == i,
{
    let k = s.index_of(s[i]);
}

/// A fresh store holds exactly one block, the genesis block, at height 0,
/// and that block is its tip.
pub proof fn lemma_genesis(c: ChainView)
    requires
        c == ChainView::genesis(),
    ensures
        c.wf(),
        c.blocks.dom() == set![BlockView::genesis().digest()],
        c.blocks.dom().len() == 1,
        c.heights.dom() == c.blocks.dom(),
        c.blocks[c.tip] == BlockView::genesis(),
        c.tip == BlockView::genesis().digest(),
        c.tip_height() == 0,
{
    let g = BlockView::genesis().digest();
    assert(c.order[0] == g);
    assert forall|h: Seq<u8>| c.blocks.contains_key(h) <==> c.order.contains(h) by {
        if c.order.contains(h) {
            let k = c.order.index_of(h);
        }
    }
    lemma_index_of_unique(c.order, 0);
}

/// Blocks and heights have the same keys, finitely many, as many as the
/// store admitted blocks.
pub proof fn lemma_key_sets(c: ChainView)
    requires
        c.wf(),
    ensures
        c.blocks.dom() == c.heights.dom(),
        c.blocks.dom() == c.order.to_set(),
        c.blocks.dom().finite(),
        c.blocks.dom().len() == c.order.len(),
{
    assert(c.heights.dom() =~= c.order.to_set());
    seq_to_set_is_finite(c.order);
    c.order.unique_seq_to_set();
}

/// Where a block is admitted, the blocks that came before keep their
/// place, their content and their height, and the new block comes last.
pub proof fn lemma_insert_appends(c: ChainView, b: BlockView)
    requires
        c.wf(),
        c.admits(b),
    ensures
        c.insert(b).order.len() == c.order.len() + 1,
        c.insert(b).order.no_duplicates(),
        forall|i: int|
            0 <= i < c.order.len() ==> {
                &&& c.insert(b).order[i] == c.order[i]
                &&& #[trigger] c.insert(b).block_at(i) == c.block_at(i)
                &&& c.insert(b).height_at(i) == c.height_at(i)
            },
        forall|i: int|
            0 <= i < c.order.len() ==> #[trigger] c.insert(b).height_at(i) == c.height_at(i),
        c.insert(b).order[c.order.len() as int] == b.digest(),
        c.insert(b).block_at(c.order.len() as int) == b,
        c.insert(b).height_at(c.order.len() as int) == c.heights[b.parent] + 1,
{
    assert(!c.order.contains(b.digest()));
}

/// Every store that is reached by offering a block to a store of which
/// `wf` holds is again such a store.
pub proof fn lemma_insert_wf(c: ChainView, b: BlockView)
    requires
        c.wf(),
    ensures
        c.insert(b).wf(),
{
    if c.admits(b) {
        let d = c.insert(b);
        let n = c.order.len() as int;
        lemma_insert_appends(c, b);
        assert forall|k: Seq<u8>| d.blocks.contains_key(k) <==> d.order.contains(k) by {
            if c.order.contains(k) {
                let i = c.order.index_of(k);
                assert(d.order[i] == k);
            }
            if d.order.contains(k) {
                let i = d.order.index_of(k);
            }
        }
        assert forall|k: Seq<u8>| d.heights.contains_key(k) <==> d.order.contains(k) by {
            assert(c.heights.contains_key(k) <==> c.order.contains(k));
        }
        assert forall|i: int| 0 < i < d.order.len() implies #[trigger] d.has_parent(i) by {
            if i < n {
                assert(c.has_parent(i));
                let j = choose|j: int| #[trigger] c.linked(i, j);
                assert(d.linked(i, j));
            } else {
                assert(c.order.contains(b.parent));
                let j = c.order.index_of(b.parent);
                assert(d.linked(i, j));
            }
        }
        let t = c.order.index_of(c.tip);
        lemma_index_of_unique(d.order, t);
        lemma_index_of_unique(d.order, n);
    }
}

/// Offering a block a second time changes nothing.
pub proof fn lemma_insert_idempotent(c: ChainView, b: BlockView)
    ensures
        c.insert(b).insert(b) == c.insert(b),
{
}

/// The store only grows: a block that it holds stays, with its content and
/// its height, whatever is offered.
pub proof fn lemma_insert_keeps(c: ChainView, b: BlockView, h: Seq<u8>)
    requires
        c.blocks.contains_key(h),
        c.heights.contains_key(h),
    ensures
        c.insert(b).blocks.contains_key(h),
        c.insert(b).heights.contains_key(h),
        c.insert(b).blocks[h] == c.blocks[h],
        c.insert(b).heights[h] == c.heights[h],
{
}

/// The tip moves only upwards: after a block was offered, the tip is the
/// tip of before, or it is the new block and stands strictly higher. A block
/// that only reaches the height of the tip never replaces it.
pub proof fn lemma_fork_choice(c: ChainView, b: BlockView)
    requires
        c.wf(),
    ensures
        c.insert(b).tip == c.tip || (c.admits(b) && c.insert(b).tip == b.digest()
            && c.insert(b).tip_height() > c.tip_height()),
        c.admits(b) && c.heights[b.parent] + 1 <= c.tip_height() ==> c.insert(b).tip == c.tip,
        c.admits(b) && c.heights[b.parent] + 1 > c.tip_height() ==> c.insert(b).tip == b.digest(),
        c.insert(b).tip == c.tip ==> c.insert(b).tip_height() == c.tip_height(),
{
}

/// A new block on top of the tip becomes the tip, one above the tip of
/// before.
pub proof fn lemma_extend_tip(c: ChainView, b: BlockView)
    requires
        c.wf(),
        c.extends_tip(b),
    ensures
        c.admits(b),
        c.insert(b).tip == b.digest(),
        c.insert(b).tip_height() == c.tip_height() + 1,
{
}

/// What holds of a sequence of blocks holds of each of its beginnings.
proof fn lemma_each_extends_tip_take(c: ChainView, bs: Seq<BlockView>, k: int)
    requires
        c.each_extends_tip(bs),
        0 <= k <= bs.len(),
    ensures
        c.each_extends_tip(bs.take(k)),
{
    assert forall|i: int| 0 <= i < bs.take(k).len() implies #[trigger] c.insert_all(
        bs.take(k).take(i),
    ).extends_tip(bs.take(k)[i]) by {
        assert(bs.take(k).take(i) =~= bs.take(i));
    }
}

/// Offering blocks keeps `wf`.
pub proof fn lemma_insert_all_wf(c: ChainView, bs: Seq<BlockView>)
    requires
        c.wf(),
    ensures
        c.insert_all(bs).wf(),
    decreases bs.len(),
{
    if bs.len() > 0 {
        lemma_insert_all_wf(c, bs.drop_last());
        lemma_insert_wf(c.insert_all(bs.drop_last()), bs.last());
    }
}

/// Linear growth: after `n` blocks, each on top of the tip that the blocks
/// before it left, the tip is the last of them and stands `n` above the tip
/// of before; on a fresh store, at height `n`.
pub proof fn lemma_linear_growth(c: ChainView, bs: Seq<BlockView>)
    requires
        c.wf(),
        c.each_extends_tip(bs),
    ensures
        c.insert_all(bs).wf(),
        c.insert_all(bs).tip_height() == c.tip_height() + bs.len(),
        bs.len() > 0 ==> c.insert_all(bs).tip == bs.last().digest(),
        c == ChainView::genesis() ==> c.insert_all(bs).tip_height() == bs.len(),
    decreases bs.len(),
{
    lemma_insert_all_wf(c, bs);
    if bs.len() > 0 {
        let init = bs.drop_last();
        lemma_each_extends_tip_take(c, bs, bs.len() - 1);
        lemma_linear_growth(c, init);
        lemma_extend_tip(c.insert_all(init), bs.last());
    }
}

/// Linear growth holds after every step.
pub proof fn lemma_linear_growth_step(c: ChainView, bs: Seq<BlockView>, k: int)
    requires
        c.wf(),
        c.each_extends_tip(bs),
        0 < k <= bs.len(),
    ensures
        c.insert_all(bs.take(k)).tip == bs[k - 1].digest(),
        c.insert_all(bs.take(k)).tip_height() == c.tip_height() + k,
{
    lemma_each_extends_tip_take(c, bs, k);
    lemma_linear_growth(c, bs.take(k));
}

/// A path has as many digests as it was asked for.
pub proof fn lemma_path_len(c: ChainView, h: Seq<u8>, n: nat)
    ensures
        c.path_to(h, n).len() == n,
    decreases n,
{
    if n > 0 {
        lemma_path_len(c, c.blocks[h].parent, (n - 1) as nat);
    }
}

/// Only the block that came first, the genesis block, has height 0.
pub proof fn lemma_height_zero(c: ChainView, i: int)
    requires
        c.wf(),
        0 <= i < c.order.len(),
        c.height_at(i) == 0,
    ensures
        i == 0,
{
    if i > 0 {
        assert(c.has_parent(i));
    }
}

/// The path to a block of the store, taken at the block's height, starts
/// just above genesis and climbs one block at a time: its `k`-th digest
/// names a block of the store at height `k + 1`, whose parent is the digest
/// before it, or the genesis block for the first; and it ends at the block.
pub proof fn lemma_path(c: ChainView, h: Seq<u8>)
    requires
        c.wf(),
        c.blocks.contains_key(h),
    ensures
        c.path_to(h, c.heights[h]).len() == c.heights[h],
        c.heights[h] > 0 ==> c.path_to(h, c.heights[h]).last() == h,
        c.heights[h] > 0 ==> c.blocks[c.path_to(h, c.heights[h])[0]].parent == c.order[0],
        forall|k: int|
            0 <= k < c.heights[h] ==> {
                &&& c.blocks.contains_key(#[trigger] c.path_to(h, c.heights[h])[k])
                &&& c.heights[c.path_to(h, c.heights[h])[k]] == k + 1
            },
        forall|k: int|
            0 < k < c.heights[h] ==> c.blocks[#[trigger] c.path_to(h, c.heights[h])[k]].parent
                == c.path_to(h, c.heights[h])[k - 1],
    decreases c.heights[h],
{
    let n = c.heights[h];
    lemma_path_len(c, h, n);
    if n > 0 {
        assert(c.order.contains(h));
        let i = c.order.index_of(h);
        assert(c.has_parent(i));
        let j = choose|j: int| #[trigger] c.linked(i, j);
        let p = c.order[j];
        assert(c.order.contains(p));
        lemma_path(c, p);
        if n == 1 {
            lemma_height_zero(c, j);
        }
    }
}

/// The longest chain has as many digests as the tip is high, each names a
/// block of the store, the `k`-th at height `k + 1`; the first extends the
/// genesis block, each other one the one before it, and the last is the
/// tip.
pub proof fn lemma_longest_chain(c: ChainView)
    requires
        c.wf(),
    ensures
        c.longest_chain().len() == c.tip_height(),
        c.tip_height() > 0 ==> c.longest_chain().last() == c.tip,
        c.tip_height() > 0 ==> c.blocks[c.longest_chain()[0]].parent
            == BlockView::genesis().digest(),
        forall|k: int|
            0 <= k < c.tip_height() ==> {
                &&& c.blocks.contains_key(#[trigger] c.longest_chain()[k])
                &&& c.heights[c.longest_chain()[k]] == k + 1
            },
        forall|k: int|
            0 < k < c.tip_height() ==> c.blocks[#[trigger] c.longest_chain()[k]].parent
                == c.longest_chain()[k - 1],
{
    lemma_path(c, c.tip);
}

/// Admitting a block leaves the paths to the blocks of before as they were.
proof fn lemma_path_stable(c: ChainView, b: BlockView, h: Seq<u8>)
    requires
        c.wf(),
        c.blocks.contains_key(h),
    ensures
        c.insert(b).path_to(h, c.heights[h]) == c.path_to(h, c.heights[h]),
    decreases c.heights[h],
{
    let n = c.heights[h];
    if n > 0 {
        assert(c.order.contains(h));
        let i = c.order.index_of(h);
        assert(c.has_parent(i));
        let j = choose|j: int| #[trigger] c.linked(i, j);
        let p = c.order[j];
        assert(c.order.contains(p));
        lemma_path_stable(c, b, p);
    }
}

/// A new block on top of the tip adds its digest to the end of the longest
/// chain.
pub proof fn lemma_extend_chain(c: ChainView, b: BlockView)
    requires
        c.wf(),
        c.extends_tip(b),
    ensures
        c.insert(b).longest_chain() == c.longest_chain().push(b.digest()),
{
    lemma_extend_tip(c, b);
    lemma_path_stable(c, b, c.tip);
}

/// The digests of the blocks, in order.
pub open spec fn digests_of(bs: Seq<BlockView>) -> Seq<Seq<u8>> {
    bs.map_values(|b: BlockView| b.digest())
}

/// Ancestry round trip: after `n` blocks, each on top of the tip that the
/// blocks before it left, the longest chain is the one of before followed by
/// the digests of those blocks in the order in which they were offered; on
/// a fresh store, exactly those `n` digests.
pub proof fn lemma_ancestry_round_trip(c: ChainView, bs: Seq<BlockView>)
    requires
        c.wf(),
        c.each_extends_tip(bs),
    ensures
        c.insert_all(bs).longest_chain() == c.longest_chain() + digests_of(bs),
        c == ChainView::genesis() ==> c.insert_all(bs).longest_chain() == digests_of(bs),
        c == ChainView::genesis() ==> c.insert_all(bs).longest_chain().len() == bs.len(),
    decreases bs.len(),
{
    if bs.len() > 0 {
        let init = bs.drop_last();
        lemma_each_extends_tip_take(c, bs, bs.len() - 1);
        lemma_ancestry_round_trip(c, init);
        lemma_insert_all_wf(c, init);
        lemma_extend_chain(c.insert_all(init), bs.last());
        assert((c.longest_chain() + digests_of(init)).push(bs.last().digest())
            =~= c.longest_chain() + digests_of(bs));
    }
    if c == ChainView::genesis() {
        lemma_genesis(c);
    }
}

} // verus!
