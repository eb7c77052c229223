//! The ledger: an append-only run of blocks, each linked to the one before
//! by its content hash, and the validator that re-checks every link.
use vstd::prelude::*;
use vstd::string::StringExecFns;
use crate::block::{lemma_hash_depends_only_on_contents, same_contents, Block, Transaction, BATCH_SIZE};
use crate::digest::{lemma_hex_injective, sha256_of};

verus! {

/// The predecessor hash that block `i` must carry: `"0"` for the genesis
/// block, else the content hash stored in block `i - 1`.
pub open spec fn expected_previous(blocks: Seq<Block>, i: int) -> Seq<char> {
    if i == 0 {
        seq!['0']
    } else {
        blocks[i - 1].hash->0@
    }
}

/// Block `i` carries a content hash that matches its contents, and the
/// predecessor hash that its position asks for.
pub open spec fn block_valid_at(blocks: Seq<Block>, i: int) -> bool {
    &&& blocks[i].sealed_correctly()
    &&& blocks[i].previous_hash@ == expected_previous(blocks, i)
}

/// A chain passes validation: it has a genesis block and every block from
/// the genesis to the tip is correctly sealed and linked.
pub open spec fn chain_valid(blocks: Seq<Block>) -> bool {
    &&& blocks.len() >= 1
    &&& forall|i: int| 0 <= i < blocks.len() ==> #[trigger] block_valid_at(blocks, i)
}

/// Each block's sequence number is its position in the chain.
pub open spec fn numbered(blocks: Seq<Block>) -> bool {
    forall|i: int| 0 <= i < blocks.len() ==> (#[trigger] blocks[i]).id == i
}

/// `after` is `before` with one more block: the next sequence number,
/// linked to the tip of `before`, holding `txs`, and sealed.
pub open spec fn appended(before: Seq<Block>, after: Seq<Block>, txs: Seq<Transaction>) -> bool {
    &&& after.len() == before.len() + 1
    &&& after.drop_last() == before
    &&& after.last().id == before.len()
    &&& after.last().previous_hash@ == before.last().hash->0@
    &&& after.last().transactions@ == txs
    &&& after.last().sealed_correctly()
}

/// Appending a block as `add_block` does keeps a valid chain valid and a
/// numbered chain numbered, and links the new block to the old tip's hash.
pub proof fn lemma_append_keeps_chain_valid(
    before: Seq<Block>,
    after: Seq<Block>,
    txs: Seq<Transaction>,
)
    requires
        before.len() >= 1,
        appended(before, after, txs),
    ensures
        chain_valid(before) ==> chain_valid(after),
        numbered(before) ==> numbered(after),
        after.last().previous_hash@ == expected_previous(after, after.len() - 1),
{
    assert forall|i: int| 0 <= i < before.len() implies after[i] == before[i] by {
        assert(after[i] == after.drop_last()[i]);
    }
    assert(after[after.len() - 2] == before.last());
    if chain_valid(before) {
        assert forall|i: int| 0 <= i < after.len() implies #[trigger] block_valid_at(after, i) by {
            if i < before.len() {
                assert(block_valid_at(before, i));
            }
        }
    }
    if numbered(before) {
        assert forall|i: int| 0 <= i < after.len() implies (#[trigger] after[i]).id == i by {
            if i < before.len() {
                assert(before[i].id == i);
            }
        }
    }
}

/// The stored content hash of a block, as text.
pub open spec fn stored_hash(b: Block) -> Option<Seq<char>> {
    match b.hash {
        Some(h) => Some(h@),
        None => None,
    }
}

/// A ledger as `Blockchain::new` makes it: one sealed genesis block with
/// sequence number 0, predecessor hash `"0"` and no records.
pub open spec fn genesis_only(blocks: Seq<Block>) -> bool {
    &&& blocks.len() == 1
    &&& blocks[0].id == 0
    &&& blocks[0].previous_hash@ == seq!['0']
    &&& blocks[0].transactions@.len() == 0
    &&& blocks[0].sealed_correctly()
}

/// A fresh ledger after any number of batches: `history[0]` is the fresh
/// ledger and each later state appends `batches[i]` to the one before. The
/// last state passes validation and holds one block per state, numbered
/// from 0, each linked to the content hash of the one before it.
pub proof fn lemma_batches_build_valid_chain(
    history: Seq<Seq<Block>>,
    batches: Seq<Seq<Transaction>>,
)
    requires
        history.len() == batches.len() + 1,
        genesis_only(history[0]),
        forall|i: int|
            0 <= i < batches.len() ==> appended(#[trigger] history[i], history[i + 1], batches[i]),
    ensures
        chain_valid(history.last()),
        numbered(history.last()),
        history.last().len() == history.len(),
    decreases batches.len(),
{
    if batches.len() == 0 {
        assert(block_valid_at(history[0], 0));
    } else {
        let n = batches.len() - 1;
        let (h, b) = (history.drop_last(), batches.drop_last());
        assert forall|i: int| 0 <= i < b.len() implies appended(
            #[trigger] h[i],
            h[i + 1],
            b[i],
        ) by {
            assert(appended(history[i], history[i + 1], batches[i]));
        }
        lemma_batches_build_valid_chain(h, b);
        assert(h.last() == history[n]);
        assert(appended(history[n], history[n + 1], batches[n]));
        lemma_append_keeps_chain_valid(history[n], history[n + 1], batches[n]);
    }
}

/// Tampering with a stored block of a valid chain is caught by
/// validation, and putting the block back makes the chain valid again.
/// Caught are: a changed predecessor hash; a changed stored hash over
/// unchanged contents; and changed contents under the old stored hash
/// whenever SHA-256 tells the old and new canonical bytes apart. Since the
/// canonical bytes determine every hashed field (`lemma_encoding_injective`),
/// that covers any change to the sequence number, the timestamp or any field
/// of any record, short of a SHA-256 collision.
pub proof fn lemma_tampering_detected(blocks: Seq<Block>, k: int, b: Block)
    requires
        chain_valid(blocks),
        0 <= k < blocks.len(),
        ({
            let orig = blocks[k];
            ||| b.previous_hash@ != orig.previous_hash@
            ||| (same_contents(b, orig) && stored_hash(b) != stored_hash(orig))
            ||| (stored_hash(b) == stored_hash(orig) && sha256_of(b.encoded()) != sha256_of(
                orig.encoded(),
            ))
        }),
    ensures
        !chain_valid(blocks.update(k, b)),
        chain_valid(blocks.update(k, b).update(k, blocks[k])),
{
    let orig = blocks[k];
    let tampered = blocks.update(k, b);
    assert(block_valid_at(blocks, k));
    if k > 0 {
        assert(tampered[k - 1] == blocks[k - 1]);
    }
    if same_contents(b, orig) {
        lemma_hash_depends_only_on_contents(b, orig);
    } else if b.digest() == orig.digest() {
        lemma_hex_injective(sha256_of(b.encoded()), sha256_of(orig.encoded()));
    }
    assert(!block_valid_at(tampered, k));
    assert(tampered.update(k, orig) =~= blocks);
}

/// A batch handed to the ledger did not hold exactly `BATCH_SIZE` records.
#[derive(Debug, Clone, Copy, PartialEq, Eq)]
pub struct ContractViolation {
    pub batch_len: usize,
}

/// The ledger. `blocks[n]` is the block with sequence number `n`; the last
/// block is the tip.
pub struct Blockchain {
    pub blocks: Vec<Block>,
}

impl Blockchain {
    /// The ledger can take one more block: it has a sealed tip, and the
    /// next sequence number fits in a `u64`.
    pub open spec fn can_append(&self) -> bool {
        &&& self.blocks@.len() >= 1
        &&& self.blocks@.len() < u64::MAX
        &&& self.blocks@.last().hash is Some
    }

    /// A ledger holding only its genesis block: sequence number 0,
    /// predecessor hash `"0"`, no records, sealed at once.
    pub fn new() -> (r: Blockchain)
        ensures
            genesis_only(r.blocks@),
            chain_valid(r.blocks@),
            numbered(r.blocks@),
    {
        let sentinel = String::from_str("0");
        proof {
            reveal_strlit("0");
            assert(sentinel@ =~= seq!['0']);
        }
        let mut genesis = Block::new(0, sentinel);
        genesis.seal();
        let mut blocks: Vec<Block> = Vec::new();
        blocks.push(genesis);
        let r = Blockchain { blocks };
        assert(block_valid_at(r.blocks@, 0));
        r
    }

    /// Seals a batch of exactly `BATCH_SIZE` records into a new block that
    /// follows the tip and links to its content hash, and makes it the tip.
    pub fn add_block(&mut self, transactions: Vec<Transaction>)
        requires
            old(self).can_append(),
            transactions@.len() == BATCH_SIZE,
        ensures
            appended(old(self).blocks@, final(self).blocks@, transactions@),
            chain_valid(old(self).blocks@) ==> chain_valid(final(self).blocks@),
            numbered(old(self).blocks@) ==> numbered(final(self).blocks@),
    {
        let tip = self.blocks.len() - 1;
        let previous_hash = self.blocks[tip].hash.as_ref().unwrap().clone();
        let mut block = Block::new(self.blocks.len() as u64, previous_hash);
        let mut rest = transactions;
        while rest.len() > 0
            invariant
                block.id == old(self).blocks@.len(),
                block.previous_hash@ == old(self).blocks@.last().hash->0@,
                block.transactions@ + rest@ == transactions@,
                block.transactions@.len() < BATCH_SIZE ==> block.hash is None,
                block.transactions@.len() == BATCH_SIZE ==> block.sealed_correctly(),
                transactions@.len() == BATCH_SIZE,
            decreases rest@.len(),
        {
            let ghost before = block.transactions@;
            let ghost pending = rest@;
            let t = rest.remove(0);
            block.add_transaction(t);
            assert(block.transactions@ + rest@ =~= before + pending);
        }
        assert(block.transactions@ =~= transactions@);
        self.blocks.push(block);
        proof {
            assert(self.blocks@.drop_last() =~= old(self).blocks@);
            lemma_append_keeps_chain_valid(old(self).blocks@, self.blocks@, transactions@);
        }
    }

    /// `add_block` for a batch of any size: a batch that does not hold
    /// exactly `BATCH_SIZE` records is refused whole and leaves the ledger
    /// as it was.
    pub fn try_add_block(&mut self, transactions: Vec<Transaction>) -> (r: Result<
        (),
        ContractViolation,
    >)
        requires
            old(self).can_append(),
        ensures
            r is Ok <==> transactions@.len() == BATCH_SIZE,
            r is Ok ==> appended(old(self).blocks@, final(self).blocks@, transactions@),
            r is Err ==> r == Err::<(), ContractViolation>(
                ContractViolation { batch_len: transactions@.len() as usize },
            ),
            r is Err ==> final(self).blocks@ == old(self).blocks@,
    {
        if transactions.len() != BATCH_SIZE {
            return Err(ContractViolation { batch_len: transactions.len() });
        }
        self.add_block(transactions);
        Ok(())
    }

    /// The sequence number of the tip, absent only for a ledger with no
    /// blocks.
    pub fn latest_block(&self) -> (r: Option<u64>)
        ensures
            self.blocks@.len() == 0 ==> r is None,
            0 < self.blocks@.len() <= u64::MAX ==> r == Some((self.blocks@.len() - 1) as u64),
    {
        if self.blocks.len() == 0 {
            None
        } else {
            Some((self.blocks.len() - 1) as u64)
        }
    }

    /// The ledger passes validation: walking from the genesis block to the
    /// tip, every block's stored content hash is present and equals the hash
    /// recomputed from its contents, and its predecessor hash equals the
    /// content hash of the block before it (`"0"` for the genesis block).
    pub fn validate_chain(&self) -> (r: bool)
        ensures
            r == chain_valid(self.blocks@),
    {
        if self.blocks.len() == 0 {
            return false;
        }
        let mut previous_hash = String::from_str("0");
        proof {
            reveal_strlit("0");
            assert(previous_hash@ =~= seq!['0']);
        }
        let mut i: usize = 0;
        while i < self.blocks.len()
            invariant
                0 <= i <= self.blocks@.len(),
                forall|j: int| 0 <= j < i ==> #[trigger] block_valid_at(self.blocks@, j),
                i < self.blocks@.len() ==> previous_hash@ == expected_previous(self.blocks@, i as int),
            decreases self.blocks@.len() - i,
        {
            let block = &self.blocks[i];
            match &block.hash {
                None => {
                    assert(!block_valid_at(self.blocks@, i as int));
                    return false;
                },
                Some(h) => {
                    let recomputed = block.calculate_hash();
                    if *h != recomputed {
                        assert(!block_valid_at(self.blocks@, i as int));
                        return false;
                    }
                    if block.previous_hash != previous_hash {
                        assert(!block_valid_at(self.blocks@, i as int));
                        return false;
                    }
                    previous_hash = h.clone();
                },
            }
            assert(block_valid_at(self.blocks@, i as int));
            i += 1;
        }
        true
    }

    /// The block with sequence number `id`, if the ledger holds one.
    pub fn get_block_by_id(&self, id: u64) -> (r: Option<&Block>)
        ensures
            (id as int) < self.blocks@.len() ==> r == Some(&self.blocks@[id as int]),
            (id as int) >= self.blocks@.len() ==> r is None,
    {
        if id < self.blocks.len() as u64 {
            Some(&self.blocks[id as usize])
        } else {
            None
        }
    }
}

} // verus!
