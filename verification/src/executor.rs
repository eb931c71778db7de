//! The executor core: a single-writer state machine that routes firm and
//! soft blocks, enforces height-monotonic ordering per stream, deduplicates
//! work across the streams through the pending-finalization map, bounds the
//! divergence between the two commitments, and resolves every commitment
//! transition.
//!
//! All I/O stays outside: callers ask for a decision
//! ([`Executor::begin_soft`], [`Executor::begin_firm`]), perform the
//! `ExecuteBlock` call the decision demands, and hand the engine's answer
//! back to a commit method, which records the transition and returns the
//! commitment pair to send to the rollup node.

use vstd::prelude::*;

use crate::block::{Block, BlockView, ExecutableBlock};
use crate::state::{CommitmentState, CommitmentStateView, GenesisInfo, GenesisInfoView, State};

verus! {

/// The soft arm is masked while the next soft height leads the next firm
/// height by at least this many blocks.
pub const MAX_COMMITMENT_SPREAD: u64 = 16;

/// How a commitment update moves the pair: only the firm commitment, only
/// the soft commitment, or both to one block.
#[derive(Debug)]
pub enum Update {
    OnlyFirm(Block),
    OnlySoft(Block),
    ToSame(Block),
}

/// Decision for one soft block after the height check.
#[derive(Debug)]
pub enum SoftDecision {
    /// Below the expected height: a firm block already advanced past it;
    /// drop it without error.
    Stale,
    /// Above the expected height: a block was skipped upstream; fatal.
    FutureHeight { expected: u64 },
    /// Exactly the expected height: execute the block on top of this parent.
    Execute { parent_hash: Vec<u8> },
}

/// Decision for one firm block after the height and pending checks.
#[derive(Debug)]
pub enum FirmDecision {
    /// Not the expected height: firm blocks are authoritative and must
    /// arrive in strict height order; fatal.
    HeightMismatch { expected: u64 },
    /// The block's hash was already executed as a soft block: finish it
    /// from the pending-finalization entry without executing again.
    AlreadyExecuted,
    /// The hash is new: execute the block on top of this parent.
    Execute { parent_hash: Vec<u8> },
}

/// An error of a commitment transition.
#[derive(Clone, Copy, PartialEq, Eq, Structural, Debug)]
pub enum CommitmentError {
    /// The resolved pair cannot be advertised: it is malformed or would put
    /// the firm commitment above the soft commitment.
    InvalidCommitmentState { firm_number: u64, soft_number: u64 },
}

/// No two pending entries share a key.
pub open spec fn pending_unique(p: Seq<(Seq<u8>, BlockView)>) -> bool {
    forall|i: int, j: int|
        #![trigger p[i], p[j]]
        0 <= i < p.len() && 0 <= j < p.len() && i != j ==> p[i].0 != p[j].0
}

/// Every pending entry has a 32-byte key and a well-formed block.
pub open spec fn pending_entries_wf(p: Seq<(Seq<u8>, BlockView)>) -> bool {
    forall|i: int| 0 <= i < p.len() ==> (#[trigger] p[i]).0.len() == 32 && p[i].1.wf()
}

/// Whether some pending entry carries the given key.
pub open spec fn pending_has_key(p: Seq<(Seq<u8>, BlockView)>, h: Seq<u8>) -> bool {
    exists|i: int| 0 <= i < p.len() && (#[trigger] p[i]).0 == h
}

/// The block of the pending entry with the given key.
pub open spec fn pending_value(p: Seq<(Seq<u8>, BlockView)>, h: Seq<u8>) -> BlockView {
    p[choose|i: int| 0 <= i < p.len() && (#[trigger] p[i]).0 == h].1
}

proof fn lemma_pending_value_at(p: Seq<(Seq<u8>, BlockView)>, h: Seq<u8>, i: int)
    requires
        pending_unique(p),
        0 <= i < p.len(),
        p[i].0 == h,
    ensures
        pending_has_key(p, h),
        pending_value(p, h) == p[i].1,
{
    assert(pending_has_key(p, h));
    let k = choose|k: int| 0 <= k < p.len() && (#[trigger] p[k]).0 == h;
    if k != i {
        assert(p[k].0 != p[i].0);
        assert(false);
    }
}

proof fn lemma_pending_remove(p: Seq<(Seq<u8>, BlockView)>, i: int)
    requires
        pending_unique(p),
        pending_entries_wf(p),
        0 <= i < p.len(),
    ensures
        pending_unique(p.remove(i)),
        pending_entries_wf(p.remove(i)),
        !pending_has_key(p.remove(i), p[i].0),
        forall|k: Seq<u8>| k != p[i].0 ==> (pending_has_key(p.remove(i), k) <==> pending_has_key(
            p,
            k,
        )),
        forall|k: Seq<u8>| k != p[i].0 && pending_has_key(p, k) ==> pending_value(p.remove(i), k)
            == pending_value(p, k),
{
    p.remove_ensures(i);
    let q = p.remove(i);
    assert forall|a: int| 0 <= a < q.len() implies q[a].0 != p[i].0 && q[a].0.len() == 32
        && q[a].1.wf() by {
        if a < i {
            assert(q[a] == p[a]);
        } else {
            assert(q[a] == p[a + 1]);
        }
    }
    assert forall|a: int, b: int|
        #![trigger q[a], q[b]]
        0 <= a < q.len() && 0 <= b < q.len() && a != b implies q[a].0 != q[b].0 by {
        let a0: int = if a < i {
            a
        } else {
            a + 1
        };
        let b0: int = if b < i {
            b
        } else {
            b + 1
        };
        assert(q[a] == p[a0] && q[b] == p[b0]);
        assert(p[a0].0 != p[b0].0);
    }
    assert forall|k: Seq<u8>| k != p[i].0 implies (pending_has_key(q, k) <==> pending_has_key(
        p,
        k,
    )) by {
        if pending_has_key(q, k) {
            let a = choose|a: int| 0 <= a < q.len() && (#[trigger] q[a]).0 == k;
            let a0: int = if a < i {
                a
            } else {
                a + 1
            };
            assert(p[a0].0 == k);
            assert(pending_has_key(p, k));
        }
        if pending_has_key(p, k) {
            let a = choose|a: int| 0 <= a < p.len() && (#[trigger] p[a]).0 == k;
            if a < i {
                assert(q[a].0 == k);
            } else {
                assert(q[a - 1] == p[a]);
            }
            assert(pending_has_key(q, k));
        }
    }
    assert forall|k: Seq<u8>| k != p[i].0 && pending_has_key(p, k) implies pending_value(q, k)
        == pending_value(p, k) by {
        let a = choose|a: int| 0 <= a < p.len() && (#[trigger] p[a]).0 == k;
        lemma_pending_value_at(p, k, a);
        if a < i {
            assert(q[a] == p[a]);
            lemma_pending_value_at(q, k, a);
        } else {
            assert(q[a - 1] == p[a]);
            lemma_pending_value_at(q, k, a - 1);
        }
    }
}

proof fn lemma_pending_push(p: Seq<(Seq<u8>, BlockView)>, e: (Seq<u8>, BlockView))
    requires
        pending_unique(p),
        pending_entries_wf(p),
        !pending_has_key(p, e.0),
        e.0.len() == 32,
        e.1.wf(),
    ensures
        pending_unique(p.push(e)),
        pending_entries_wf(p.push(e)),
        pending_has_key(p.push(e), e.0),
        pending_value(p.push(e), e.0) == e.1,
        forall|k: Seq<u8>| k != e.0 ==> (pending_has_key(p.push(e), k) <==> pending_has_key(p, k)),
        forall|k: Seq<u8>| k != e.0 && pending_has_key(p, k) ==> pending_value(p.push(e), k)
            == pending_value(p, k),
{
    let q = p.push(e);
    assert forall|a: int| 0 <= a < p.len() implies q[a] == p[a] && q[a].0 != e.0 by {
        assert(p[a].0 == p[a].0);
        if p[a].0 == e.0 {
            assert(pending_has_key(p, e.0));
        }
    }
    assert(q[p.len() as int] == e);
    assert forall|a: int, b: int|
        #![trigger q[a], q[b]]
        0 <= a < q.len() && 0 <= b < q.len() && a != b implies q[a].0 != q[b].0 by {
        if a < p.len() && b < p.len() {
            assert(p[a].0 != p[b].0);
        }
    }
    lemma_pending_value_at(q, e.0, p.len() as int);
    assert forall|k: Seq<u8>| k != e.0 implies (pending_has_key(q, k) <==> pending_has_key(
        p,
        k,
    )) by {
        if pending_has_key(q, k) {
            let a = choose|a: int| 0 <= a < q.len() && (#[trigger] q[a]).0 == k;
            assert(a < p.len());
            assert(p[a].0 == k);
        }
        if pending_has_key(p, k) {
            let a = choose|a: int| 0 <= a < p.len() && (#[trigger] p[a]).0 == k;
            assert(q[a].0 == k);
        }
    }
    assert forall|k: Seq<u8>| k != e.0 && pending_has_key(p, k) implies pending_value(q, k)
        == pending_value(p, k) by {
        let a = choose|a: int| 0 <= a < p.len() && (#[trigger] p[a]).0 == k;
        lemma_pending_value_at(p, k, a);
        lemma_pending_value_at(q, k, a);
    }
}

/// The executor core. It owns the published [`State`], the pending
/// finalization map of blocks executed as soft and not yet confirmed firm,
/// and the spread flag.
pub struct Executor {
    state: State,
    consider_commitment_spread: bool,
    blocks_pending_finalization: Vec<(Vec<u8>, Block)>,
}

impl Executor {
    /// The published state.
    pub closed spec fn state_spec(self) -> State {
        self.state
    }

    /// Whether genesis info and commitment state have been set.
    pub open spec fn initialized(self) -> bool {
        self.state_spec().initialized()
    }

    /// The genesis parameters, once initialized.
    pub open spec fn genesis(self) -> GenesisInfoView {
        self.state_spec().genesis()
    }

    /// The firm commitment, once initialized.
    pub open spec fn firm_view(self) -> BlockView {
        self.state_spec().firm_view()
    }

    /// The soft commitment, once initialized.
    pub open spec fn soft_view(self) -> BlockView {
        self.state_spec().soft_view()
    }

    /// Whether the spread between the commitments masks the soft arm.
    pub closed spec fn spread_flag(self) -> bool {
        self.consider_commitment_spread
    }

    /// The pending-finalization map, as a sequence of key/block pairs.
    pub closed spec fn pending(self) -> Seq<(Seq<u8>, BlockView)> {
        self.blocks_pending_finalization@.map_values(|e: (Vec<u8>, Block)| (e.0@, e.1@))
    }

    /// Whether a block with the given sequencer block hash awaits firm
    /// confirmation.
    pub open spec fn pending_has(self, h: Seq<u8>) -> bool {
        pending_has_key(self.pending(), h)
    }

    /// The executed block awaiting firm confirmation under the given hash.
    pub open spec fn pending_at(self, h: Seq<u8>) -> BlockView {
        pending_value(self.pending(), h)
    }

    /// Well-formedness: the state is well formed, pending keys are unique
    /// 32-byte hashes with well-formed blocks, and nothing is pending before
    /// initialization.
    pub open spec fn wf(self) -> bool {
        &&& self.state_spec().wf()
        &&& pending_unique(self.pending())
        &&& pending_entries_wf(self.pending())
        &&& (!self.initialized() ==> self.pending().len() == 0)
    }

    /// The sequencer height the next firm block must carry.
    pub open spec fn next_firm_sequencer_height_spec(self) -> int {
        self.state_spec().next_firm_sequencer_height_spec()
    }

    /// The sequencer height the next soft block must carry.
    pub open spec fn next_soft_sequencer_height_spec(self) -> int {
        self.state_spec().next_soft_sequencer_height_spec()
    }

    /// A commitment pair the executor may adopt: well formed, and leaving
    /// the next soft sequencer height representable.
    pub open spec fn adoptable(self, c: CommitmentStateView) -> bool {
        c.wf() && c.soft.number + 1 + self.genesis().sequencer_genesis_block_height <= u64::MAX
    }

    /// The soft arm is masked exactly while the spread flag is set and the
    /// next soft height leads the next firm height by the limit or more.
    pub open spec fn spread_spec(self) -> bool {
        self.spread_flag() && self.next_soft_sequencer_height_spec()
            - self.next_firm_sequencer_height_spec() >= MAX_COMMITMENT_SPREAD
    }

    /// A fresh executor: uninitialized, with nothing pending.
    pub fn new(consider_commitment_spread: bool) -> (e: Executor)
        ensures
            !e.initialized(),
            e.wf(),
            e.spread_flag() == consider_commitment_spread,
            e.pending() == Seq::<(Seq<u8>, BlockView)>::empty(),
    {
        let e = Executor {
            state: State::new(),
            consider_commitment_spread,
            blocks_pending_finalization: Vec::new(),
        };
        proof {
            assert(e.pending() =~= Seq::<(Seq<u8>, BlockView)>::empty());
        }
        e
    }

    /// Sets genesis info and the initial commitment state, fetched from the
    /// rollup node at start-up.
    pub fn init(&mut self, genesis_info: GenesisInfo, commitment_state: CommitmentState)
        requires
            !old(self).initialized(),
            old(self).wf(),
            genesis_info@.wf(),
            commitment_state@.wf(),
            commitment_state@.soft.number + 1 + genesis_info@.sequencer_genesis_block_height
                <= u64::MAX,
        ensures
            final(self).initialized(),
            final(self).wf(),
            final(self).genesis() == genesis_info@,
            final(self).firm_view() == commitment_state@.firm,
            final(self).soft_view() == commitment_state@.soft,
            final(self).spread_flag() == old(self).spread_flag(),
            final(self).pending() == old(self).pending(),
    {
        self.state.init(genesis_info, commitment_state);
    }

    /// Whether the executor has been initialized.
    pub fn is_init(&self) -> (b: bool)
        ensures
            b == self.initialized(),
    {
        self.state.is_init()
    }

    /// The published state, for watchers.
    pub fn state(&self) -> (s: &State)
        ensures
            *s == self.state_spec(),
    {
        &self.state
    }

    /// The sequencer height the next firm block must carry.
    pub fn next_firm_sequencer_height(&self) -> (r: u64)
        requires
            self.wf(),
            self.initialized(),
        ensures
            r == self.next_firm_sequencer_height_spec(),
    {
        self.state.next_firm_sequencer_height()
    }

    /// The sequencer height the next soft block must carry.
    pub fn next_soft_sequencer_height(&self) -> (r: u64)
        requires
            self.wf(),
            self.initialized(),
        ensures
            r == self.next_soft_sequencer_height_spec(),
    {
        self.state.next_soft_sequencer_height()
    }

    /// Whether the soft arm is masked: with the spread flag unset this is
    /// never the case; otherwise exactly while the next soft height leads
    /// the next firm height by the limit or more.
    pub fn is_spread_too_large(&self) -> (b: bool)
        requires
            self.wf(),
            self.initialized(),
        ensures
            b == self.spread_spec(),
    {
        if !self.consider_commitment_spread {
            return false;
        }
        let next_firm = self.state.next_firm_sequencer_height();
        let next_soft = self.state.next_soft_sequencer_height();
        next_soft.saturating_sub(next_firm) >= MAX_COMMITMENT_SPREAD
    }

    /// Finds the index of the pending entry with the given hash.
    fn find_pending(&self, hash: &Vec<u8>) -> (r: Option<usize>)
        ensures
            match r {
                Some(i) => 0 <= i < self.pending().len() && self.pending()[i as int].0 == hash@,
                None => !self.pending_has(hash@),
            },
    {
        let mut i: usize = 0;
        while i < self.blocks_pending_finalization.len()
            invariant
                i <= self.blocks_pending_finalization.len(),
                forall|j: int| 0 <= j < i ==> (#[trigger] self.pending()[j]).0 != hash@,
            decreases self.blocks_pending_finalization.len() - i,
        {
            if crate::block::bytes_eq(&self.blocks_pending_finalization[i].0, hash) {
                return Some(i);
            }
            i += 1;
        }
        None
    }

    /// Whether a block with the given sequencer block hash awaits firm
    /// confirmation.
    pub fn has_pending(&self, hash: &Vec<u8>) -> (b: bool)
        requires
            self.wf(),
        ensures
            b == self.pending_has(hash@),
    {
        match self.find_pending(hash) {
            Some(i) => {
                proof {
                    lemma_pending_value_at(self.pending(), hash@, i as int);
                }
                true
            },
            None => false,
        }
    }

    /// Removes and returns the pending entry with the given hash, if any.
    fn pending_remove(&mut self, hash: &Vec<u8>) -> (r: Option<Block>)
        requires
            old(self).wf(),
        ensures
            final(self).wf(),
            final(self).state_spec() == old(self).state_spec(),
            final(self).spread_flag() == old(self).spread_flag(),
            r is Some <==> old(self).pending_has(hash@),
            r matches Some(b) ==> b@ == old(self).pending_at(hash@),
            !final(self).pending_has(hash@),
            forall|k: Seq<u8>| k != hash@ ==> (final(self).pending_has(k)
                <==> old(self).pending_has(k)),
            forall|k: Seq<u8>| k != hash@ && old(self).pending_has(k) ==> final(self).pending_at(k)
                == old(self).pending_at(k),
    {
        match self.find_pending(hash) {
            None => None,
            Some(i) => {
                let ghost p0 = self.pending();
                proof {
                    lemma_pending_value_at(p0, hash@, i as int);
                    lemma_pending_remove(p0, i as int);
                }
                let entry = self.blocks_pending_finalization.remove(i);
                proof {
                    p0.remove_ensures(i as int);
                    assert(self.pending() =~= p0.remove(i as int));
                }
                Some(entry.1)
            },
        }
    }

    /// Resolves an update against the current commitments: `OnlyFirm` keeps
    /// the soft block, `OnlySoft` keeps the firm block, `ToSame` sets both
    /// to one block.
    pub fn resolve_update(&self, update: Update) -> (c: CommitmentState)
        requires
            self.initialized(),
        ensures
            update matches Update::OnlyFirm(f) ==> c@ == (CommitmentStateView {
                firm: f@,
                soft: self.soft_view(),
            }),
            update matches Update::OnlySoft(s) ==> c@ == (CommitmentStateView {
                firm: self.firm_view(),
                soft: s@,
            }),
            update matches Update::ToSame(b) ==> c@ == (CommitmentStateView {
                firm: b@,
                soft: b@,
            }),
    {
        match update {
            Update::OnlyFirm(firm) => CommitmentState { firm, soft: self.state.soft().clone() },
            Update::OnlySoft(soft) => CommitmentState { firm: self.state.firm().clone(), soft },
            Update::ToSame(block) => {
                let soft = block.clone();
                CommitmentState { firm: block, soft }
            },
        }
    }

    /// Whether the executor may adopt the given commitment pair.
    pub fn is_adoptable(&self, commitment_state: &CommitmentState) -> (b: bool)
        requires
            self.wf(),
            self.initialized(),
        ensures
            b == self.adoptable(commitment_state@),
    {
        let g = self.state.sequencer_genesis_block_height();
        commitment_state.firm.hash.len() == 32 && commitment_state.firm.parent_hash.len() == 32
            && commitment_state.soft.hash.len() == 32 && commitment_state.soft.parent_hash.len()
            == 32 && commitment_state.firm.number <= commitment_state.soft.number
            && commitment_state.soft.number <= u64::MAX - 1 - g
    }

    /// Adopts the commitment pair the rollup node returned as authoritative;
    /// reports whether it differed from the current pair.
    pub fn adopt_commitment_state(&mut self, commitment_state: CommitmentState) -> (changed: bool)
        requires
            old(self).wf(),
            old(self).initialized(),
            old(self).adoptable(commitment_state@),
        ensures
            final(self).wf(),
            final(self).initialized(),
            final(self).genesis() == old(self).genesis(),
            final(self).spread_flag() == old(self).spread_flag(),
            final(self).firm_view() == commitment_state@.firm,
            final(self).soft_view() == commitment_state@.soft,
            final(self).pending() == old(self).pending(),
            changed == (old(self).state_spec().commitment_view() != commitment_state@),
    {
        self.state.update_if_modified(commitment_state)
    }

    /// Height check for one soft block: stale blocks are dropped, skipped
    /// heights are fatal, the expected height is executed on top of the
    /// current soft block.
    pub fn begin_soft(&self, block: &ExecutableBlock) -> (d: SoftDecision)
        requires
            self.wf(),
            self.initialized(),
        ensures
            (d is Stale) == (block.height < self.next_soft_sequencer_height_spec()),
            (d is FutureHeight) == (block.height > self.next_soft_sequencer_height_spec()),
            (d is Execute) == (block.height == self.next_soft_sequencer_height_spec()),
            d matches SoftDecision::FutureHeight { expected } ==> expected
                == self.next_soft_sequencer_height_spec(),
            d matches SoftDecision::Execute { parent_hash } ==> parent_hash@
                == self.soft_view().hash,
    {
        let expected = self.state.next_soft_sequencer_height();
        if block.height < expected {
            SoftDecision::Stale
        } else if block.height > expected {
            SoftDecision::FutureHeight { expected }
        } else {
            SoftDecision::Execute { parent_hash: self.state.soft_parent_hash() }
        }
    }

    /// Height and pending checks for one firm block: a wrong height is
    /// fatal; a hash already executed as soft is finished from the pending
    /// entry; a new hash is executed on top of the current firm block.
    pub fn begin_firm(&self, block: &ExecutableBlock) -> (d: FirmDecision)
        requires
            self.wf(),
            self.initialized(),
        ensures
            (d is HeightMismatch) == (block.height != self.next_firm_sequencer_height_spec()),
            (d is AlreadyExecuted) == (block.height == self.next_firm_sequencer_height_spec()
                && self.pending_has(block.hash@)),
            (d is Execute) == (block.height == self.next_firm_sequencer_height_spec()
                && !self.pending_has(block.hash@)),
            d matches FirmDecision::HeightMismatch { expected } ==> expected
                == self.next_firm_sequencer_height_spec(),
            d matches FirmDecision::Execute { parent_hash } ==> parent_hash@
                == self.firm_view().hash,
    {
        let expected = self.state.next_firm_sequencer_height();
        if block.height != expected {
            FirmDecision::HeightMismatch { expected }
        } else if self.has_pending(&block.hash) {
            FirmDecision::AlreadyExecuted
        } else {
            FirmDecision::Execute { parent_hash: self.state.firm_parent_hash() }
        }
    }

    /// Records a successful soft execution: the soft commitment moves to the
    /// executed block, the firm commitment stays, and the executed block is
    /// remembered under the sequencer block hash until firm confirmation.
    /// Returns the commitment pair to send to the rollup node. Fails, with
    /// nothing changed, exactly when the resulting pair could not be
    /// advertised.
    pub fn commit_soft(&mut self, block_hash: Vec<u8>, executed: Block) -> (r: Result<
        CommitmentState,
        CommitmentError,
    >)
        requires
            old(self).wf(),
            old(self).initialized(),
            block_hash@.len() == 32,
        ensures
            r is Ok <==> old(self).adoptable(
                CommitmentStateView { firm: old(self).firm_view(), soft: executed@ },
            ),
            r matches Ok(c) ==> {
                &&& c@ == (CommitmentStateView { firm: old(self).firm_view(), soft: executed@ })
                &&& soft_commit_transition(*old(self), block_hash@, executed@, *final(self))
            },
            r is Err ==> *final(self) == *old(self),
            r matches Err(e) ==> e == (CommitmentError::InvalidCommitmentState {
                firm_number: old(self).firm_view().number,
                soft_number: executed@.number,
            }),
    {
        let g = self.state.sequencer_genesis_block_height();
        let firm_number = self.state.firm().number;
        if !(executed.hash.len() == 32 && executed.parent_hash.len() == 32 && firm_number
            <= executed.number && executed.number <= u64::MAX - 1 - g) {
            return Err(
                CommitmentError::InvalidCommitmentState {
                    firm_number,
                    soft_number: executed.number,
                },
            );
        }
        let ghost pre = *self;
        let pair = self.resolve_update(Update::OnlySoft(executed.clone()));
        let _ = self.state.update_if_modified(pair.clone());
        let _ = self.pending_remove(&block_hash);
        let ghost mid = *self;
        let ghost p0 = self.pending();
        self.blocks_pending_finalization.push((block_hash, executed));
        proof {
            assert(self.pending() =~= p0.push((block_hash@, executed@)));
            lemma_pending_push(p0, (block_hash@, executed@));
            assert forall|k: Seq<u8>| k != block_hash@ implies (self.pending_has(k)
                <==> pre.pending_has(k)) by {
                assert(self.pending_has(k) <==> mid.pending_has(k));
                assert(mid.pending_has(k) <==> pre.pending_has(k));
            }
            assert forall|k: Seq<u8>| k != block_hash@ && pre.pending_has(k) implies
                self.pending_at(k) == pre.pending_at(k) by {
                assert(mid.pending_has(k));
                assert(self.pending_at(k) == mid.pending_at(k));
                assert(mid.pending_at(k) == pre.pending_at(k));
            }
        }
        Ok(pair)
    }

    /// Finishes a firm block whose hash was executed as soft: the pending
    /// entry becomes the firm commitment and the soft commitment stays.
    /// Returns the commitment pair to send to the rollup node. Fails, with
    /// the pending entry removed and the commitments unchanged, exactly when
    /// the pending block would put the firm commitment above the soft one.
    pub fn commit_firm_from_pending(&mut self, block_hash: &Vec<u8>) -> (r: Result<
        CommitmentState,
        CommitmentError,
    >)
        requires
            old(self).wf(),
            old(self).initialized(),
            old(self).pending_has(block_hash@),
        ensures
            r is Ok <==> old(self).pending_at(block_hash@).number <= old(self).soft_view().number,
            r matches Ok(c) ==> {
                &&& c@ == (CommitmentStateView {
                    firm: old(self).pending_at(block_hash@),
                    soft: old(self).soft_view(),
                })
                &&& firm_from_pending_transition(*old(self), block_hash@, *final(self))
            },
            r is Err ==> {
                &&& final(self).wf()
                &&& final(self).initialized()
                &&& final(self).genesis() == old(self).genesis()
                &&& final(self).spread_flag() == old(self).spread_flag()
                &&& final(self).firm_view() == old(self).firm_view()
                &&& final(self).soft_view() == old(self).soft_view()
                &&& !final(self).pending_has(block_hash@)
                &&& forall|k: Seq<u8>| k != block_hash@ ==> (final(self).pending_has(k)
                    <==> old(self).pending_has(k))
                &&& forall|k: Seq<u8>| k != block_hash@ && old(self).pending_has(k)
                    ==> final(self).pending_at(k) == old(self).pending_at(k)
            },
            r matches Err(e) ==> e == (CommitmentError::InvalidCommitmentState {
                firm_number: old(self).pending_at(block_hash@).number,
                soft_number: old(self).soft_view().number,
            }),
    {
        let entry = match self.pending_remove(block_hash) {
            Some(b) => b,
            None => {
                proof {
                    assert(false);
                }
                unreached()
            },
        };
        let soft_number = self.state.soft().number;
        if entry.number > soft_number {
            return Err(
                CommitmentError::InvalidCommitmentState {
                    firm_number: entry.number,
                    soft_number,
                },
            );
        }
        let pair = self.resolve_update(Update::OnlyFirm(entry));
        let _ = self.state.update_if_modified(pair.clone());
        Ok(pair)
    }

    /// Finishes a firm block whose hash was never executed as soft: both
    /// commitments collapse to the executed block. Returns the commitment
    /// pair to send to the rollup node. Fails, with nothing changed, exactly
    /// when the executed block could not be advertised.
    pub fn commit_firm_to_same(&mut self, executed: Block) -> (r: Result<
        CommitmentState,
        CommitmentError,
    >)
        requires
            old(self).wf(),
            old(self).initialized(),
        ensures
            r is Ok <==> old(self).adoptable(
                CommitmentStateView { firm: executed@, soft: executed@ },
            ),
            r matches Ok(c) ==> {
                &&& c@ == (CommitmentStateView { firm: executed@, soft: executed@ })
                &&& firm_to_same_transition(*old(self), executed@, *final(self))
            },
            r is Err ==> *final(self) == *old(self),
            r matches Err(e) ==> e == (CommitmentError::InvalidCommitmentState {
                firm_number: executed@.number,
                soft_number: executed@.number,
            }),
    {
        let g = self.state.sequencer_genesis_block_height();
        if !(executed.hash.len() == 32 && executed.parent_hash.len() == 32 && executed.number
            <= u64::MAX - 1 - g) {
            return Err(
                CommitmentError::InvalidCommitmentState {
                    firm_number: executed.number,
                    soft_number: executed.number,
                },
            );
        }
        let pair = self.resolve_update(Update::ToSame(executed));
        let _ = self.state.update_if_modified(pair.clone());
        Ok(pair)
    }
}

/// A soft block was executed and committed: the soft commitment is the
/// executed block, the firm commitment is unchanged, and the executed block
/// is pending finalization under the sequencer block hash; every other
/// pending entry is untouched.
pub open spec fn soft_commit_transition(
    pre: Executor,
    block_hash: Seq<u8>,
    executed: BlockView,
    post: Executor,
) -> bool {
    &&& post.initialized()
    &&& post.wf()
    &&& post.genesis() == pre.genesis()
    &&& post.spread_flag() == pre.spread_flag()
    &&& post.firm_view() == pre.firm_view()
    &&& post.soft_view() == executed
    &&& post.pending_has(block_hash)
    &&& post.pending_at(block_hash) == executed
    &&& forall|k: Seq<u8>| k != block_hash ==> (post.pending_has(k) <==> pre.pending_has(k))
    &&& forall|k: Seq<u8>| k != block_hash && pre.pending_has(k) ==> post.pending_at(k)
        == pre.pending_at(k)
}

/// A firm block was finished from its pending entry: the firm commitment is
/// the block executed back when the hash arrived as soft, the soft
/// commitment is unchanged, and the entry is gone; every other pending entry
/// is untouched.
pub open spec fn firm_from_pending_transition(
    pre: Executor,
    block_hash: Seq<u8>,
    post: Executor,
) -> bool {
    &&& post.initialized()
    &&& post.wf()
    &&& post.genesis() == pre.genesis()
    &&& post.spread_flag() == pre.spread_flag()
    &&& post.firm_view() == pre.pending_at(block_hash)
    &&& post.soft_view() == pre.soft_view()
    &&& !post.pending_has(block_hash)
    &&& forall|k: Seq<u8>| k != block_hash ==> (post.pending_has(k) <==> pre.pending_has(k))
    &&& forall|k: Seq<u8>| k != block_hash && pre.pending_has(k) ==> post.pending_at(k)
        == pre.pending_at(k)
}

/// A fresh firm block was executed and committed: both commitments are the
/// executed block and the pending map is untouched.
pub open spec fn firm_to_same_transition(pre: Executor, executed: BlockView, post: Executor) -> bool {
    &&& post.initialized()
    &&& post.wf()
    &&& post.genesis() == pre.genesis()
    &&& post.spread_flag() == pre.spread_flag()
    &&& post.firm_view() == executed
    &&& post.soft_view() == executed
    &&& post.pending() == pre.pending()
}

/// Law: an initialized, well-formed executor's firm commitment never leads
/// its soft commitment.
pub proof fn lemma_firm_never_leads_soft(e: Executor)
    requires
        e.wf(),
        e.initialized(),
    ensures
        e.firm_view().number <= e.soft_view().number,
{
}

/// Law: a block committed as soft and later confirmed as firm by hash leaves
/// both commitments at the very block the soft execution produced — the firm
/// confirmation is taken from the pending entry, never executed a second
/// time, and it always succeeds.
pub proof fn lemma_soft_then_firm_round_trip(
    pre: Executor,
    mid: Executor,
    post: Executor,
    block_hash: Seq<u8>,
    executed: BlockView,
)
    requires
        soft_commit_transition(pre, block_hash, executed, mid),
        firm_from_pending_transition(mid, block_hash, post),
    ensures
        mid.pending_at(block_hash).number <= mid.soft_view().number,
        post.firm_view() == executed,
        post.soft_view() == executed,
        post.firm_view() == post.soft_view(),
{
}

/// Law: committing a fresh firm block to both commitments clears the spread
/// mask: the next soft block is eligible again.
pub proof fn lemma_to_same_unmasks_soft(pre: Executor, executed: BlockView, post: Executor)
    requires
        firm_to_same_transition(pre, executed, post),
    ensures
        !post.spread_spec(),
{
}

} // verus!
