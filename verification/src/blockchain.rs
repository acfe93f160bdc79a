//! The chain store: every admitted block, its height, and the tip of the
//! longest chain.

use vstd::prelude::*;
use crate::block::{Block, BlockView};
use crate::chain::{lemma_genesis, lemma_index_of_unique, lemma_insert_wf, ChainView};
use crate::hash::{digest_views, H256};

verus! {

/// Why a block was not admitted.
#[derive(Clone, Copy, Debug, PartialEq, Eq, Structural)]
pub enum InsertError {
    /// The block is new and the store does not know its parent.
    OrphanBlock,
}

/// An admitted block with its digest, its height, and the place of its
/// parent among the entries.
struct Entry {
    hash: H256,
    block: Block,
    height: u64,
    parent: usize,
}

/// The chain store. Blocks are kept in the order in which they were
/// admitted, the genesis block first; a block is looked up by comparing
/// digests, in time linear in the number of blocks.
pub struct Blockchain {
    entries: Vec<Entry>,
    tip: usize,
}

/// The digests of the entries, in order.
spec fn digests(es: Seq<Entry>) -> Seq<Seq<u8>> {
    es.map_values(|e: Entry| e.hash@)
}

/// The store that the entries and the place of the tip stand for.
spec fn model(es: Seq<Entry>, tip: int) -> ChainView {
    let order = digests(es);
    ChainView {
        blocks: Map::new(
            |h: Seq<u8>| order.contains(h),
            |h: Seq<u8>| es[order.index_of(h)].block@,
        ),
        heights: Map::new(
            |h: Seq<u8>| order.contains(h),
            |h: Seq<u8>| es[order.index_of(h)].height as nat,
        ),
        tip: es[tip].hash@,
        order,
    }
}

/// The `i`-th entry knows the place of its parent.
spec fn parent_known(es: Seq<Entry>, i: int) -> bool {
    &&& es[i].parent < i
    &&& es[es[i].parent as int].hash@ == es[i].block@.parent
    &&& es[i].height == es[es[i].parent as int].height + 1
}

/// The entries stand for a store of which `wf` holds, every entry but the
/// first knows the place of its parent, and no height exceeds the number of
/// entries before it.
spec fn valid(es: Seq<Entry>, tip: int) -> bool {
    &&& 0 <= tip < es.len()
    &&& forall|i: int| 0 < i < es.len() ==> #[trigger] parent_known(es, i)
    &&& forall|i: int| 0 <= i < es.len() ==> (#[trigger] es[i]).height <= i
    &&& model(es, tip).wf()
}

/// In valid entries, the model holds under each digest what the entry with
/// that digest holds.
proof fn lemma_model_at(es: Seq<Entry>, tip: int, i: int)
    requires
        valid(es, tip),
        0 <= i < es.len(),
    ensures
        model(es, tip).order[i] == es[i].hash@,
        model(es, tip).blocks.contains_key(es[i].hash@),
        model(es, tip).heights.contains_key(es[i].hash@),
        model(es, tip).blocks[es[i].hash@] == es[i].block@,
        model(es, tip).heights[es[i].hash@] == es[i].height,
        model(es, tip).block_at(i) == es[i].block@,
        model(es, tip).height_at(i) == es[i].height,
        es[i].block@.digest() == es[i].hash@,
{
    let c = model(es, tip);
    lemma_index_of_unique(c.order, i);
}

/// Adding an entry for a new block whose parent stands at `entry.parent`
/// gives valid entries again, and they stand for the store after the block
/// was offered to it.
proof fn lemma_push(es: Seq<Entry>, tip: int, entry: Entry, new_tip: int)
    requires
        valid(es, tip),
        entry.hash@ == entry.block@.digest(),
        !digests(es).contains(entry.hash@),
        0 <= entry.parent < es.len(),
        es[entry.parent as int].hash@ == entry.block@.parent,
        entry.height == es[entry.parent as int].height + 1,
        new_tip == if entry.height > es[tip].height {
            es.len() as int
        } else {
            tip
        },
    ensures
        valid(es.push(entry), new_tip),
        model(es, tip).admits(entry.block@),
        model(es.push(entry), new_tip) == model(es, tip).insert(entry.block@),
{
    let c = model(es, tip);
    let b = entry.block@;
    let n = es.len() as int;
    let p = entry.parent as int;
    let fs = es.push(entry);
    let d = model(fs, new_tip);
    lemma_model_at(es, tip, p);
    lemma_model_at(es, tip, tip);
    let e = c.insert(b);
    assert(d.order =~= e.order);
    lemma_insert_wf(c, b);
    assert forall|k: Seq<u8>| d.order.contains(k) implies fs[d.order.index_of(k)].block@
        == e.blocks[k] && fs[d.order.index_of(k)].height == e.heights[k] by {
        let i = d.order.index_of(k);
        lemma_index_of_unique(e.order, i);
        if i < n {
            lemma_model_at(es, tip, i);
        }
    }
    assert forall|k: Seq<u8>| e.blocks.contains_key(k) <==> d.order.contains(k) by {}
    assert(d.blocks =~= e.blocks);
    assert(d.heights =~= e.heights);
    assert forall|i: int| 0 < i < fs.len() implies #[trigger] parent_known(fs, i) by {
        if i < n {
            assert(parent_known(es, i));
        }
    }
}

impl View for Blockchain {
    type V = ChainView;

    closed spec fn view(&self) -> ChainView {
        model(self.entries@, self.tip as int)
    }
}

impl Blockchain {
    /// The store is in order: it stands for a state of which `wf` holds, and
    /// its bookkeeping is sound. `new` gives such a store and `insert`
    /// keeps it one.
    pub closed spec fn inv(&self) -> bool {
        valid(self.entries@, self.tip as int)
    }

    /// Makes a store that holds the genesis block and nothing else.
    pub fn new() -> (chain: Blockchain)
        ensures
            chain.inv(),
            chain@ == ChainView::genesis(),
    {
        let genesis = Block::genesis();
        let hash = genesis.hash();
        let mut entries: Vec<Entry> = Vec::new();
        entries.push(Entry { hash, block: genesis, height: 0, parent: 0 });
        proof {
            let c = model(entries@, 0);
            let g = ChainView::genesis();
            assert(c.order =~= g.order);
            assert forall|k: Seq<u8>| c.order.contains(k) implies c.order.index_of(k) == 0 by {
                let i = c.order.index_of(k);
            }
            assert(g.order[0] == hash@);
            assert(c.blocks =~= g.blocks);
            assert(c.heights =~= g.heights);
            lemma_genesis(g);
        }
        Blockchain { entries, tip: 0 }
    }

    /// The place of the entry with digest `hash`, if there is one.
    fn find(&self, hash: &H256) -> (r: Option<usize>)
        ensures
            match r {
                Some(i) => i < self.entries@.len() && self.entries@[i as int].hash@ == hash@,
                None => !digests(self.entries@).contains(hash@),
            },
    {
        let mut i: usize = 0;
        while i < self.entries.len()
            invariant
                i <= self.entries@.len(),
                forall|j: int| 0 <= j < i ==> self.entries@[j].hash@ != hash@,
            decreases self.entries@.len() - i,
        {
            if self.entries[i].hash == *hash {
                return Some(i);
            }
            i += 1;
        }
        None
    }

    /// Offers a block to the store. A block whose digest the store holds
    /// already changes nothing. A new block whose parent the store holds is
    /// admitted one above its parent, and becomes the tip if it stands
    /// higher than the tip; at equal height the tip stays. A new block whose
    /// parent the store does not hold is refused and changes nothing.
    pub fn insert(&mut self, block: &Block) -> (r: Result<(), InsertError>)
        requires
            old(self).inv(),
        ensures
            final(self).inv(),
            final(self)@ == old(self)@.insert(block@),
            r is Err <==> old(self)@.is_orphan(block@),
            r matches Err(e) ==> e == InsertError::OrphanBlock,
    {
        let hash = block.hash();
        if let Some(held) = self.find(&hash) {
            proof {
                lemma_model_at(self.entries@, self.tip as int, held as int);
            }
            return Ok(());
        }
        let parent_hash = block.parent();
        match self.find(&parent_hash) {
            None => Err(InsertError::OrphanBlock),
            Some(parent) => {
                let place = self.entries.len();
                proof {
                    lemma_model_at(self.entries@, self.tip as int, parent as int);
                }
                let height = self.entries[parent].height + 1;
                let entry = Entry { hash, block: block.clone(), height, parent };
                let higher = height > self.entries[self.tip].height;
                proof {
                    let new_tip = if higher {
                        place as int
                    } else {
                        self.tip as int
                    };
                    lemma_push(self.entries@, self.tip as int, entry, new_tip);
                }
                self.entries.push(entry);
                if higher {
                    self.tip = place;
                }
                Ok(())
            },
        }
    }

    /// The digest of the tip: the first block, in the order of admission,
    /// among those of the greatest height.
    pub fn tip(&self) -> (h: H256)
        requires
            self.inv(),
        ensures
            h@ == self@.tip,
    {
        self.entries[self.tip].hash
    }

    /// The number of blocks in the store.
    pub fn len(&self) -> (n: usize)
        requires
            self.inv(),
        ensures
            n == self@.order.len(),
            n >= 1,
    {
        self.entries.len()
    }

    /// The block with digest `hash`, if the store holds it.
    pub fn get(&self, hash: &H256) -> (r: Option<&Block>)
        requires
            self.inv(),
        ensures
            r is Some <==> self@.blocks.contains_key(hash@),
            r matches Some(block) ==> block@ == self@.blocks[hash@],
    {
        match self.find(hash) {
            Some(i) => {
                proof {
                    lemma_model_at(self.entries@, self.tip as int, i as int);
                }
                Some(&self.entries[i].block)
            },
            None => None,
        }
    }

    /// The height of the block with digest `hash`, if the store holds it.
    pub fn height(&self, hash: &H256) -> (r: Option<u64>)
        requires
            self.inv(),
        ensures
            r is Some <==> self@.heights.contains_key(hash@),
            r matches Some(n) ==> n == self@.heights[hash@],
    {
        match self.find(hash) {
            Some(i) => {
                proof {
                    lemma_model_at(self.entries@, self.tip as int, i as int);
                }
                Some(self.entries[i].height)
            },
            None => None,
        }
    }

    /// The digests of the longest chain, from the block just above genesis
    /// up to the tip. The genesis block is left out, so a store that holds
    /// nothing else gives an empty vector.
    pub fn all_blocks_in_longest_chain(&self) -> (chain: Vec<H256>)
        requires
            self.inv(),
        ensures
            digest_views(chain@) == self@.longest_chain(),
    {
        let ghost c = self@;
        let mut down: Vec<H256> = Vec::new();
        let mut at = self.tip;
        proof {
            lemma_model_at(self.entries@, self.tip as int, at as int);
        }
        while self.entries[at].height > 0
            invariant
                self.inv(),
                c == self@,
                at < self.entries@.len(),
                c.longest_chain() == c.path_to(
                    self.entries@[at as int].hash@,
                    self.entries@[at as int].height as nat,
                ) + digest_views(down@).reverse(),
            decreases at,
        {
            let entry = &self.entries[at];
            proof {
                lemma_model_at(self.entries@, self.tip as int, 0);
                lemma_model_at(self.entries@, self.tip as int, at as int);
                assert(parent_known(self.entries@, at as int));
                let below = c.path_to(
                    self.entries@[entry.parent as int].hash@,
                    (entry.height - 1) as nat,
                );
                assert(digest_views(down@.push(entry.hash)).reverse() =~= seq![entry.hash@]
                    + digest_views(down@).reverse());
                assert(below.push(entry.hash@) + digest_views(down@).reverse() =~= below + (
                seq![entry.hash@] + digest_views(down@).reverse()));
            }
            down.push(entry.hash);
            at = entry.parent;
        }
        let mut chain: Vec<H256> = Vec::new();
        let mut i = down.len();
        while i > 0
            invariant
                i <= down@.len(),
                chain@.len() == down@.len() - i,
                forall|j: int| 0 <= j < chain@.len() ==> chain@[j] == down@[down@.len() - 1 - j],
            decreases i,
        {
            i -= 1;
            chain.push(down[i]);
        }
        chain
    }
}

/// A store that is in order stands for a state of which `wf` holds.
pub proof fn lemma_inv_wf(chain: Blockchain)
    requires
        chain.inv(),
    ensures
        chain@.wf(),
{
}

} // verus!
