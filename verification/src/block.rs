//! Block representations shared by the firm and soft input paths.

use vstd::prelude::*;

verus! {

/// A protobuf-style timestamp: whole seconds and subsecond nanoseconds.
#[derive(Clone, Copy, PartialEq, Eq, Structural, Debug)]
pub struct Timestamp {
    pub seconds: i64,
    pub nanos: i32,
}

/// Mathematical image of a [`Block`].
pub struct BlockView {
    pub hash: Seq<u8>,
    pub number: u64,
    pub parent_hash: Seq<u8>,
    pub timestamp: Timestamp,
}

impl BlockView {
    /// Both hashes are 32 bytes long.
    pub open spec fn wf(self) -> bool {
        self.hash.len() == 32 && self.parent_hash.len() == 32
    }
}

/// A rollup block as the execution engine reports it.
#[derive(Debug)]
pub struct Block {
    pub hash: Vec<u8>,
    pub number: u64,
    pub parent_hash: Vec<u8>,
    pub timestamp: Timestamp,
}

impl View for Block {
    type V = BlockView;

    open spec fn view(&self) -> BlockView {
        BlockView {
            hash: self.hash@,
            number: self.number,
            parent_hash: self.parent_hash@,
            timestamp: self.timestamp,
        }
    }
}

impl Clone for Block {
    fn clone(&self) -> (r: Self)
        ensures
            r@ == self@,
    {
        Block {
            hash: clone_bytes(&self.hash),
            number: self.number,
            parent_hash: clone_bytes(&self.parent_hash),
            timestamp: self.timestamp,
        }
    }
}

/// Copies a byte string; the copy has the same view.
pub fn clone_bytes(v: &Vec<u8>) -> (r: Vec<u8>)
    ensures
        r@ == v@,
{
    let r = v.clone();
    proof {
        assert forall|i: int| 0 <= i < v@.len() implies r@[i] == v@[i] by {
            assert(cloned::<u8>(v@[i], r@[i]));
        }
        assert(r@ =~= v@);
    }
    r
}

/// Mathematical image of an [`ExecutableBlock`].
pub struct ExecutableBlockView {
    pub hash: Seq<u8>,
    pub height: u64,
    pub timestamp: Timestamp,
    pub transactions: Seq<Seq<u8>>,
}

/// Normalized pre-execution form of a block, shared by both input paths:
/// the sequencer block hash, the sequencer height, the block time, and the
/// ordered transactions destined for this rollup.
#[derive(Debug)]
pub struct ExecutableBlock {
    pub hash: Vec<u8>,
    pub height: u64,
    pub timestamp: Timestamp,
    pub transactions: Vec<Vec<u8>>,
}

impl View for ExecutableBlock {
    type V = ExecutableBlockView;

    open spec fn view(&self) -> ExecutableBlockView {
        ExecutableBlockView {
            hash: self.hash@,
            height: self.height,
            timestamp: self.timestamp,
            transactions: self.transactions.deep_view(),
        }
    }
}

/// A block reconstructed from the data-availability layer: the original
/// sequencer block hash, the sequencer height and time from its header, and
/// this rollup's transactions verbatim.
#[derive(Debug)]
pub struct ReconstructedBlock {
    pub block_hash: Vec<u8>,
    pub height: u64,
    pub time: Timestamp,
    pub transactions: Vec<Vec<u8>>,
}

/// The transactions a sequencer block carries for one rollup.
#[derive(Debug)]
pub struct RollupTransactions {
    pub rollup_id: Vec<u8>,
    pub transactions: Vec<Vec<u8>>,
}

/// The parts of a sequencer block that the executor reads: hash, height,
/// time, and the per-rollup transaction lists.
#[derive(Debug)]
pub struct SequencerBlock {
    pub block_hash: Vec<u8>,
    pub height: u64,
    pub time: Timestamp,
    pub rollup_transactions: Vec<RollupTransactions>,
}

/// The transactions the first entry with the given rollup id carries, or the
/// empty sequence when no entry matches.
pub open spec fn txs_for_rollup(entries: Seq<(Seq<u8>, Seq<Seq<u8>>)>, id: Seq<u8>) -> Seq<Seq<u8>>
    decreases entries.len(),
{
    if entries.len() == 0 {
        Seq::empty()
    } else if entries[0].0 == id {
        entries[0].1
    } else {
        txs_for_rollup(entries.drop_first(), id)
    }
}

/// The per-rollup entries of a sequencer block, as pairs of id and transactions.
pub open spec fn rollup_entries_view(entries: Seq<RollupTransactions>) -> Seq<(Seq<u8>, Seq<Seq<u8>>)> {
    entries.map_values(|e: RollupTransactions| (e.rollup_id@, e.transactions.deep_view()))
}

proof fn lemma_txs_for_rollup_match(entries: Seq<(Seq<u8>, Seq<Seq<u8>>)>, id: Seq<u8>, i: int)
    requires
        0 <= i < entries.len(),
        entries[i].0 == id,
        forall|j: int| 0 <= j < i ==> entries[j].0 != id,
    ensures
        txs_for_rollup(entries, id) == entries[i].1,
    decreases i,
{
    if i > 0 {
        lemma_txs_for_rollup_match(entries.drop_first(), id, i - 1);
    }
}

proof fn lemma_txs_for_rollup_no_match(entries: Seq<(Seq<u8>, Seq<Seq<u8>>)>, id: Seq<u8>)
    requires
        forall|j: int| 0 <= j < entries.len() ==> entries[j].0 != id,
    ensures
        txs_for_rollup(entries, id) == Seq::<Seq<u8>>::empty(),
    decreases entries.len(),
{
    if entries.len() > 0 {
        lemma_txs_for_rollup_no_match(entries.drop_first(), id);
    }
}

/// Finds the first entry with the given rollup id.
fn find_rollup(entries: &Vec<RollupTransactions>, id: &Vec<u8>) -> (r: Option<usize>)
    ensures
        match r {
            Some(i) => 0 <= i < entries@.len() && entries@[i as int].rollup_id@ == id@
                && forall|j: int| 0 <= j < i ==> entries@[j].rollup_id@ != id@,
            None => forall|j: int| 0 <= j < entries@.len() ==> entries@[j].rollup_id@ != id@,
        },
{
    let mut i: usize = 0;
    while i < entries.len()
        invariant
            i <= entries@.len(),
            forall|j: int| 0 <= j < i ==> entries@[j].rollup_id@ != id@,
        decreases entries@.len() - i,
    {
        if bytes_eq(&entries[i].rollup_id, id) {
            return Some(i);
        }
        i += 1;
    }
    None
}

impl ExecutableBlock {
    /// Normalizes a block reconstructed from the data-availability layer:
    /// the transactions are taken verbatim.
    pub fn from_reconstructed(block: ReconstructedBlock) -> (r: ExecutableBlock)
        ensures
            r@.hash == block.block_hash@,
            r@.height == block.height,
            r@.timestamp == block.time,
            r@.transactions == block.transactions.deep_view(),
    {
        let ReconstructedBlock { block_hash, height, time, transactions } = block;
        ExecutableBlock { hash: block_hash, height, timestamp: time, transactions }
    }

    /// Normalizes a sequencer block: the transactions are those the block
    /// carries for the given rollup id, or the empty list when the block
    /// carries none.
    pub fn from_sequencer(block: SequencerBlock, id: &Vec<u8>) -> (r: ExecutableBlock)
        ensures
            r@.hash == block.block_hash@,
            r@.height == block.height,
            r@.timestamp == block.time,
            r@.transactions == txs_for_rollup(rollup_entries_view(block.rollup_transactions@), id@),
    {
        let SequencerBlock { block_hash, height, time, mut rollup_transactions } = block;
        let ghost entries = rollup_entries_view(rollup_transactions@);
        let transactions: Vec<Vec<u8>> = match find_rollup(&rollup_transactions, id) {
            Some(i) => {
                proof {
                    lemma_txs_for_rollup_match(entries, id@, i as int);
                }
                let entry = rollup_transactions.remove(i);
                entry.transactions
            },
            None => {
                proof {
                    lemma_txs_for_rollup_no_match(entries, id@);
                }
                let empty: Vec<Vec<u8>> = Vec::new();
                proof {
                    assert(empty.deep_view() =~= Seq::<Seq<u8>>::empty());
                }
                empty
            },
        };
        ExecutableBlock { hash: block_hash, height, timestamp: time, transactions }
    }
}

/// Compares two byte strings for equality of their contents.
pub fn bytes_eq(a: &Vec<u8>, b: &Vec<u8>) -> (r: bool)
    ensures
        r == (a@ == b@),
{
    if a.len() != b.len() {
        return false;
    }
    let mut i: usize = 0;
    while i < a.len()
        invariant
            i <= a.len(),
            a.len() == b.len(),
            forall|j: int| 0 <= j < i ==> a@[j] == b@[j],
        decreases a.len() - i,
    {
        if a[i] != b[i] {
            return false;
        }
        i += 1;
    }
    proof {
        assert(a@ =~= b@);
    }
    true
}

} // verus!
