//! Blocks and their canonical encoding.

use vstd::prelude::*;
use vstd::bytes::{
    lemma_auto_spec_u32_to_from_le_bytes, lemma_auto_spec_u64_to_from_le_bytes,
    spec_u32_to_le_bytes, spec_u64_to_le_bytes, u32_to_le_bytes, u64_to_le_bytes,
};
use crate::hash::{sha256, H256, MAX_INPUT_LEN};
use crate::transaction::{bincode_transaction, Transaction, TransactionView};

verus! {

/// What a block says: the digest of the block it extends, a nonce, and its
/// transactions.
pub struct BlockView {
    pub parent: Seq<u8>,
    pub nonce: u32,
    pub content: Seq<TransactionView>,
}

/// The canonical bytes of the transactions, one after the other.
pub open spec fn concat_transactions(content: Seq<TransactionView>) -> Seq<u8>
    decreases content.len(),
{
    if content.len() == 0 {
        Seq::empty()
    } else {
        concat_transactions(content.drop_last()) + bincode_transaction(content.last())
    }
}

/// The views of a vector's transactions, in order.
pub open spec fn transaction_views(content: Seq<Transaction>) -> Seq<TransactionView> {
    content.map_values(|t: Transaction| t@)
}

impl BlockView {
    /// The canonical bytes of a block: the parent's digest, the nonce in four
    /// bytes and the number of transactions in eight, both little-endian, and
    /// then the canonical bytes of each transaction.
    pub open spec fn encoding(self) -> Seq<u8> {
        self.parent + spec_u32_to_le_bytes(self.nonce) + spec_u64_to_le_bytes(
            self.content.len() as u64,
        ) + concat_transactions(self.content)
    }

    /// The identity of a block: the SHA-256 digest of its canonical bytes.
    pub open spec fn digest(self) -> Seq<u8> {
        sha256(self.encoding())
    }

    /// The genesis block: no transactions, nonce zero, and the all-zero
    /// digest in place of a parent.
    pub open spec fn genesis() -> BlockView {
        BlockView { parent: Seq::new(32, |i: int| 0u8), nonce: 0, content: Seq::empty() }
    }

    /// The block with these parts.
    pub open spec fn of(parent: H256, nonce: u32, content: Seq<Transaction>) -> BlockView {
        BlockView { parent: parent@, nonce, content: transaction_views(content) }
    }
}

/// A block. A block is immutable: it holds its digest from the moment it is
/// made.
#[derive(Debug)]
pub struct Block {
    parent: H256,
    nonce: u32,
    content: Vec<Transaction>,
    hash: H256,
}

impl View for Block {
    type V = BlockView;

    closed spec fn view(&self) -> BlockView {
        BlockView::of(self.parent, self.nonce, self.content@)
    }
}

/// Writes the canonical bytes of the block with these parts.
fn encode(parent: &H256, nonce: u32, content: &Vec<Transaction>) -> (bytes: Vec<u8>)
    ensures
        bytes@ == BlockView::of(*parent, nonce, content@).encoding(),
{
    let ghost views = transaction_views(content@);
    let mut bytes: Vec<u8> = Vec::new();
    bytes.extend_from_slice(parent.as_bytes().as_slice());
    let mut nonce_bytes = u32_to_le_bytes(nonce);
    bytes.append(&mut nonce_bytes);
    let mut count_bytes = u64_to_le_bytes(content.len() as u64);
    bytes.append(&mut count_bytes);
    let ghost header = bytes@;
    assert(header =~= parent@ + spec_u32_to_le_bytes(nonce) + spec_u64_to_le_bytes(
        views.len() as u64,
    ));
    let mut i: usize = 0;
    while i < content.len()
        invariant
            i <= content.len(),
            views == transaction_views(content@),
            bytes@ == header + concat_transactions(views.take(i as int)),
        decreases content.len() - i,
    {
        let data = content[i].as_bytes();
        bytes.extend_from_slice(data.as_slice());
        proof {
            assert(views.take(i + 1).drop_last() =~= views.take(i as int));
        }
        i += 1;
    }
    assert(views.take(i as int) =~= views);
    bytes
}

impl Block {
    #[verifier::type_invariant]
    spec fn well_formed(&self) -> bool {
        self.hash@ == self@.digest()
    }

    /// Makes the block with these parts and computes its digest. Returns
    /// `None` exactly when its canonical bytes would be `MAX_INPUT_LEN` long
    /// or longer.
    pub fn new(parent: H256, nonce: u32, content: Vec<Transaction>) -> (r: Option<Block>)
        ensures
            r is Some <==> BlockView::of(parent, nonce, content@).encoding().len() < MAX_INPUT_LEN,
            r matches Some(block) ==> block@ == BlockView::of(parent, nonce, content@),
    {
        let bytes = encode(&parent, nonce, &content);
        match H256::digest(bytes.as_slice()) {
            Some(hash) => Some(Block { parent, nonce, content, hash }),
            None => None,
        }
    }

    /// The genesis block.
    pub fn genesis() -> (block: Block)
        ensures
            block@ == BlockView::genesis(),
    {
        let parent = H256::zero();
        let content: Vec<Transaction> = Vec::new();
        let bytes = encode(&parent, 0, &content);
        proof {
            assert(transaction_views(content@) =~= Seq::<TransactionView>::empty());
            lemma_auto_spec_u32_to_from_le_bytes();
            lemma_auto_spec_u64_to_from_le_bytes();
        }
        let hash = H256::digest(bytes.as_slice()).unwrap();
        Block { parent, nonce: 0, content, hash }
    }

    /// The digest of the block that this one extends.
    pub fn parent(&self) -> (parent: H256)
        ensures
            parent@ == self@.parent,
    {
        self.parent
    }

    /// The nonce.
    pub fn nonce(&self) -> (nonce: u32)
        ensures
            nonce == self@.nonce,
    {
        self.nonce
    }

    /// The transactions, in order.
    pub fn content(&self) -> (content: &Vec<Transaction>)
        ensures
            transaction_views(content@) == self@.content,
    {
        &self.content
    }

    /// The canonical bytes of the block.
    pub fn to_bytes(&self) -> (bytes: Vec<u8>)
        ensures
            bytes@ == self@.encoding(),
    {
        encode(&self.parent, self.nonce, &self.content)
    }

    /// The identity of the block: the digest of its canonical bytes.
    pub fn hash(&self) -> (h: H256)
        ensures
            h@ == self@.digest(),
    {
        proof {
            use_type_invariant(self);
        }
        self.hash
    }
}

impl Clone for Block {
    fn clone(&self) -> (copy: Block)
        ensures
            copy@ == self@,
    {
        proof {
            use_type_invariant(self);
        }
        let content = self.content.clone();
        assert(transaction_views(content@) =~= transaction_views(self.content@));
        Block { parent: self.parent, nonce: self.nonce, content, hash: self.hash }
    }
}

/// Two blocks that say the same have the same digest.
pub proof fn lemma_digest_deterministic(a: Block, b: Block)
    requires
        a@ == b@,
    ensures
        a@.digest() == b@.digest(),
{
}

} // verus!
