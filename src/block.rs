//! Records and the fixed-capacity blocks that hold them.
use vstd::prelude::*;
use crate::clock::unix_time_secs;
use crate::digest::{hex_encode, hex_of, sha256, sha256_of};
use crate::encoding::{
    lemma_text_bytes_prefix, lemma_u64_bytes_prefix, push_text, push_u64, text_bytes, u64_bytes,
};
use vstd::seq_lib::lemma_concat_associative;
use vstd::utf8::encode_utf8;

verus! {

/// The number of records that fills, and seals, a block.
pub const BATCH_SIZE: usize = 5;

/// A single ledger entry: `quantity` moves from `origin` to `destination`.
#[derive(Debug, Clone)]
pub struct Transaction {
    pub id: u64,
    pub origin: String,
    pub destination: String,
    pub quantity: u64,
}

/// The canonical bytes of one record.
pub open spec fn transaction_bytes(t: Transaction) -> Seq<u8> {
    u64_bytes(t.id) + text_bytes(t.origin@) + text_bytes(t.destination@) + u64_bytes(t.quantity)
}

/// The canonical bytes of a run of records, in order.
pub open spec fn transactions_bytes(ts: Seq<Transaction>) -> Seq<u8>
    decreases ts.len(),
{
    if ts.len() == 0 {
        Seq::empty()
    } else {
        transactions_bytes(ts.drop_last()) + transaction_bytes(ts.last())
    }
}

/// Two records hold the same values.
pub open spec fn same_transaction(a: Transaction, b: Transaction) -> bool {
    &&& a.id == b.id
    &&& a.origin@ == b.origin@
    &&& a.destination@ == b.destination@
    &&& a.quantity == b.quantity
}

/// Two runs of records hold the same values in the same order.
pub open spec fn same_transactions(a: Seq<Transaction>, b: Seq<Transaction>) -> bool {
    &&& a.len() == b.len()
    &&& forall|i: int| 0 <= i < a.len() ==> same_transaction(#[trigger] a[i], b[i])
}

proof fn lemma_same_transactions_bytes(a: Seq<Transaction>, b: Seq<Transaction>)
    requires
        same_transactions(a, b),
    ensures
        transactions_bytes(a) == transactions_bytes(b),
    decreases a.len(),
{
    if a.len() > 0 {
        assert(same_transaction(a[a.len() - 1], b[b.len() - 1]));
        assert(same_transactions(a.drop_last(), b.drop_last())) by {
            assert forall|i: int| 0 <= i < a.drop_last().len() implies same_transaction(
                #[trigger] a.drop_last()[i],
                b.drop_last()[i],
            ) by {
                assert(same_transaction(a[i], b[i]));
            }
        }
        lemma_same_transactions_bytes(a.drop_last(), b.drop_last());
    }
}

/// The texts of a record have UTF-8 lengths that fit in 64 bits.
pub open spec fn transaction_fits(t: Transaction) -> bool {
    &&& encode_utf8(t.origin@).len() <= u64::MAX
    &&& encode_utf8(t.destination@).len() <= u64::MAX
}

proof fn lemma_transaction_bytes_prefix(a: Transaction, b: Transaction, r1: Seq<u8>, r2: Seq<u8>)
    requires
        transaction_bytes(a) + r1 == transaction_bytes(b) + r2,
        transaction_fits(a),
        transaction_fits(b),
    ensures
        same_transaction(a, b),
        r1 == r2,
{
    let (ta, tb) = (u64_bytes(a.quantity) + r1, u64_bytes(b.quantity) + r2);
    let (da, db) = (text_bytes(a.destination@) + ta, text_bytes(b.destination@) + tb);
    let (oa, ob) = (text_bytes(a.origin@) + da, text_bytes(b.origin@) + db);
    lemma_concat_associative(
        u64_bytes(a.id) + text_bytes(a.origin@) + text_bytes(a.destination@),
        u64_bytes(a.quantity),
        r1,
    );
    lemma_concat_associative(u64_bytes(a.id) + text_bytes(a.origin@), text_bytes(a.destination@), ta);
    lemma_concat_associative(u64_bytes(a.id), text_bytes(a.origin@), da);
    lemma_concat_associative(
        u64_bytes(b.id) + text_bytes(b.origin@) + text_bytes(b.destination@),
        u64_bytes(b.quantity),
        r2,
    );
    lemma_concat_associative(u64_bytes(b.id) + text_bytes(b.origin@), text_bytes(b.destination@), tb);
    lemma_concat_associative(u64_bytes(b.id), text_bytes(b.origin@), db);
    lemma_u64_bytes_prefix(a.id, b.id, oa, ob);
    lemma_text_bytes_prefix(a.origin@, b.origin@, da, db);
    lemma_text_bytes_prefix(a.destination@, b.destination@, ta, tb);
    lemma_u64_bytes_prefix(a.quantity, b.quantity, r1, r2);
}

proof fn lemma_transactions_bytes_prefix(
    ts: Seq<Transaction>,
    us: Seq<Transaction>,
    r1: Seq<u8>,
    r2: Seq<u8>,
)
    requires
        transactions_bytes(ts) + r1 == transactions_bytes(us) + r2,
        ts.len() == us.len(),
        forall|i: int| 0 <= i < ts.len() ==> transaction_fits(#[trigger] ts[i]),
        forall|i: int| 0 <= i < us.len() ==> transaction_fits(#[trigger] us[i]),
    ensures
        same_transactions(ts, us),
        r1 == r2,
    decreases ts.len(),
{
    if ts.len() > 0 {
        let (ta, ua) = (ts.drop_last(), us.drop_last());
        let (la, lb) = (transaction_bytes(ts.last()) + r1, transaction_bytes(us.last()) + r2);
        lemma_concat_associative(transactions_bytes(ta), transaction_bytes(ts.last()), r1);
        lemma_concat_associative(transactions_bytes(ua), transaction_bytes(us.last()), r2);
        assert(transaction_fits(ts[ts.len() - 1]) && transaction_fits(us[us.len() - 1]));
        assert forall|i: int| 0 <= i < ta.len() implies transaction_fits(#[trigger] ta[i]) by {
            assert(ta[i] == ts[i]);
        }
        assert forall|i: int| 0 <= i < ua.len() implies transaction_fits(#[trigger] ua[i]) by {
            assert(ua[i] == us[i]);
        }
        lemma_transactions_bytes_prefix(ta, ua, la, lb);
        lemma_transaction_bytes_prefix(ts.last(), us.last(), r1, r2);
        assert forall|i: int| 0 <= i < ts.len() implies same_transaction(#[trigger] ts[i], us[i]) by {
            if i < ts.len() - 1 {
                assert(same_transaction(ts.drop_last()[i], us.drop_last()[i]));
            }
        }
    }
}

/// Two blocks agree on every field that the content hash covers: sequence
/// number, timestamp, records in order and predecessor hash.
pub open spec fn same_contents(a: Block, b: Block) -> bool {
    &&& a.id == b.id
    &&& a.timestamp == b.timestamp
    &&& same_transactions(a.transactions@, b.transactions@)
    &&& a.previous_hash@ == b.previous_hash@
}

/// The content hash depends on the sequence number, the timestamp, the
/// records in order and the predecessor hash alone: two blocks that agree on
/// those have the same canonical bytes and the same content hash, whatever
/// their sealing state.
pub proof fn lemma_hash_depends_only_on_contents(a: Block, b: Block)
    requires
        same_contents(a, b),
    ensures
        a.encoded() == b.encoded(),
        a.digest() == b.digest(),
{
    lemma_same_transactions_bytes(a.transactions@, b.transactions@);
}

/// The canonical bytes lose nothing: two blocks with the same canonical
/// bytes agree on every field that the content hash covers.
pub proof fn lemma_encoding_injective(a: Block, b: Block)
    requires
        a.fits(),
        b.fits(),
        a.encoded() == b.encoded(),
    ensures
        same_contents(a, b),
{
    let (ta, tb) = (a.transactions@, b.transactions@);
    let (pa, pb) = (text_bytes(a.previous_hash@), text_bytes(b.previous_hash@));
    let (xa, xb) = (transactions_bytes(ta) + pa, transactions_bytes(tb) + pb);
    let (ca, cb) = (u64_bytes(ta.len() as u64) + xa, u64_bytes(tb.len() as u64) + xb);
    let (ia, ib) = (u64_bytes(a.timestamp) + ca, u64_bytes(b.timestamp) + cb);
    let (ga, gb) = (u64_bytes(a.id) + u64_bytes(a.timestamp), u64_bytes(b.id) + u64_bytes(b.timestamp));
    let (na, nb) = (ga + u64_bytes(ta.len() as u64), gb + u64_bytes(tb.len() as u64));
    lemma_concat_associative(na, transactions_bytes(ta), pa);
    lemma_concat_associative(ga, u64_bytes(ta.len() as u64), xa);
    lemma_concat_associative(u64_bytes(a.id), u64_bytes(a.timestamp), ca);
    lemma_concat_associative(nb, transactions_bytes(tb), pb);
    lemma_concat_associative(gb, u64_bytes(tb.len() as u64), xb);
    lemma_concat_associative(u64_bytes(b.id), u64_bytes(b.timestamp), cb);
    lemma_u64_bytes_prefix(a.id, b.id, ia, ib);
    lemma_u64_bytes_prefix(a.timestamp, b.timestamp, ca, cb);
    lemma_u64_bytes_prefix(ta.len() as u64, tb.len() as u64, xa, xb);
    lemma_transactions_bytes_prefix(ta, tb, pa, pb);
    assert(pa + Seq::<u8>::empty() =~= pa);
    assert(pb + Seq::<u8>::empty() =~= pb);
    lemma_text_bytes_prefix(a.previous_hash@, b.previous_hash@, Seq::empty(), Seq::empty());
}

/// A batch of at most `BATCH_SIZE` records, linked to its predecessor by
/// `previous_hash`. `hash` is absent while the block is open and holds its
/// content hash once sealed.
#[derive(Debug, Clone)]
pub struct Block {
    pub id: u64,
    pub timestamp: u64,
    pub transactions: Vec<Transaction>,
    pub previous_hash: String,
    pub hash: Option<String>,
}

impl Block {
    /// The canonical bytes of the hashed fields: sequence number,
    /// timestamp, record count, the records in order, predecessor hash.
    pub open spec fn encoded(self) -> Seq<u8> {
        u64_bytes(self.id) + u64_bytes(self.timestamp) + u64_bytes(
            self.transactions@.len() as u64,
        ) + transactions_bytes(self.transactions@) + text_bytes(self.previous_hash@)
    }

    /// The lengths that the canonical bytes record fit in 64 bits.
    pub open spec fn fits(self) -> bool {
        &&& self.transactions@.len() <= u64::MAX
        &&& forall|i: int|
            0 <= i < self.transactions@.len() ==> transaction_fits(#[trigger] self.transactions@[i])
        &&& encode_utf8(self.previous_hash@).len() <= u64::MAX
    }

    /// The content hash of the block as it stands: lowercase hex of the
    /// SHA-256 digest of its canonical bytes.
    pub open spec fn digest(self) -> Seq<char> {
        hex_of(sha256_of(self.encoded()))
    }

    /// The stored content hash is present and matches the block's contents.
    pub open spec fn sealed_correctly(self) -> bool {
        &&& self.hash is Some
        &&& self.hash->0@ == self.digest()
    }

    /// The sealing discipline of an ordinary block: while it holds fewer
    /// than `BATCH_SIZE` records it is open and has no content hash; once it
    /// holds `BATCH_SIZE` it is correctly sealed. (The genesis block is
    /// sealed with no records, outside this discipline.)
    pub open spec fn well_formed(self) -> bool {
        &&& self.transactions@.len() <= BATCH_SIZE
        &&& self.transactions@.len() < BATCH_SIZE ==> self.hash is None
        &&& self.transactions@.len() == BATCH_SIZE ==> self.sealed_correctly()
    }

    /// An open block: no records and no content hash, stamped with the
    /// current time.
    pub fn new(id: u64, previous_hash: String) -> (r: Block)
        ensures
            r.well_formed(),
            r.id == id,
            r.previous_hash == previous_hash,
            r.transactions@.len() == 0,
            r.hash is None,
    {
        let timestamp = unix_time_secs();
        Block::with_timestamp(id, timestamp, previous_hash)
    }

    /// An open block stamped with the given time.
    pub fn with_timestamp(id: u64, timestamp: u64, previous_hash: String) -> (r: Block)
        ensures
            r.well_formed(),
            r.id == id,
            r.timestamp == timestamp,
            r.previous_hash == previous_hash,
            r.transactions@.len() == 0,
            r.hash is None,
    {
        Block { id, timestamp, transactions: Vec::new(), previous_hash, hash: None }
    }

    /// The canonical bytes of the block as it stands.
    pub fn encode(&self) -> (r: Vec<u8>)
        ensures
            r@ == self.encoded(),
    {
        let mut out: Vec<u8> = Vec::new();
        push_u64(&mut out, self.id);
        push_u64(&mut out, self.timestamp);
        push_u64(&mut out, self.transactions.len() as u64);
        let ghost head = out@;
        let mut i: usize = 0;
        while i < self.transactions.len()
            invariant
                0 <= i <= self.transactions@.len(),
                out@ == head + transactions_bytes(self.transactions@.subrange(0, i as int)),
            decreases self.transactions@.len() - i,
        {
            let t = &self.transactions[i];
            proof {
                let ts = self.transactions@.subrange(0, i as int + 1);
                assert(ts.drop_last() =~= self.transactions@.subrange(0, i as int));
            }
            push_u64(&mut out, t.id);
            push_text(&mut out, t.origin.as_str());
            push_text(&mut out, t.destination.as_str());
            push_u64(&mut out, t.quantity);
            i += 1;
            assert(out@ =~= head + transactions_bytes(self.transactions@.subrange(0, i as int)));
        }
        assert(self.transactions@.subrange(0, i as int) =~= self.transactions@);
        push_text(&mut out, self.previous_hash.as_str());
        assert(out@ =~= self.encoded());
        out
    }

    /// The content hash of the block as it stands, whatever its state;
    /// reads the block and changes nothing.
    pub fn calculate_hash(&self) -> (r: String)
        ensures
            r@ == self.digest(),
    {
        let bytes = self.encode();
        let d = sha256(&bytes);
        hex_encode(&d)
    }

    /// Stores the content hash of the block as it stands.
    pub fn seal(&mut self)
        ensures
            final(self).id == old(self).id,
            final(self).timestamp == old(self).timestamp,
            final(self).transactions == old(self).transactions,
            final(self).previous_hash == old(self).previous_hash,
            final(self).sealed_correctly(),
    {
        let h = self.calculate_hash();
        self.hash = Some(h);
    }

    /// Appends `transaction` while the block holds fewer than `BATCH_SIZE`
    /// records, sealing it when it reaches `BATCH_SIZE`; a full block is
    /// left as it is and the record is dropped.
    pub fn add_transaction(&mut self, transaction: Transaction)
        ensures
            old(self).transactions@.len() < BATCH_SIZE ==> {
                &&& final(self).id == old(self).id
                &&& final(self).timestamp == old(self).timestamp
                &&& final(self).previous_hash == old(self).previous_hash
                &&& final(self).transactions@ == old(self).transactions@.push(transaction)
                &&& if final(self).transactions@.len() == BATCH_SIZE {
                    final(self).sealed_correctly()
                } else {
                    final(self).hash == old(self).hash
                }
            },
            old(self).transactions@.len() >= BATCH_SIZE ==> *final(self) == *old(self),
            old(self).well_formed() ==> final(self).well_formed(),
    {
        if self.transactions.len() < BATCH_SIZE {
            self.transactions.push(transaction);
            if self.transactions.len() == BATCH_SIZE {
                self.seal();
            }
        }
    }
}

} // verus!
