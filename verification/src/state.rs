//! The executor's published state: genesis parameters and the pair of
//! commitments, empty until both have been fetched from the rollup node.

use vstd::prelude::*;

use crate::block::{clone_bytes, bytes_eq, Block, BlockView};

verus! {

/// Mathematical image of a [`GenesisInfo`].
pub struct GenesisInfoView {
    pub rollup_id: Seq<u8>,
    pub sequencer_genesis_block_height: u64,
    pub celestia_base_block_height: u64,
    pub celestia_block_variance: u32,
}

impl GenesisInfoView {
    /// The rollup id is 32 bytes long.
    pub open spec fn wf(self) -> bool {
        self.rollup_id.len() == 32
    }
}

/// Genesis parameters fetched from the rollup node at start-up: the rollup's
/// 32-byte id, the sequencer height at which the rollup's chain starts, and
/// the scan parameters for the data-availability layer.
#[derive(Debug)]
pub struct GenesisInfo {
    pub rollup_id: Vec<u8>,
    pub sequencer_genesis_block_height: u64,
    pub celestia_base_block_height: u64,
    pub celestia_block_variance: u32,
}

impl View for GenesisInfo {
    type V = GenesisInfoView;

    open spec fn view(&self) -> GenesisInfoView {
        GenesisInfoView {
            rollup_id: self.rollup_id@,
            sequencer_genesis_block_height: self.sequencer_genesis_block_height,
            celestia_base_block_height: self.celestia_base_block_height,
            celestia_block_variance: self.celestia_block_variance,
        }
    }
}

impl Clone for GenesisInfo {
    fn clone(&self) -> (r: Self)
        ensures
            r@ == self@,
    {
        GenesisInfo {
            rollup_id: clone_bytes(&self.rollup_id),
            sequencer_genesis_block_height: self.sequencer_genesis_block_height,
            celestia_base_block_height: self.celestia_base_block_height,
            celestia_block_variance: self.celestia_block_variance,
        }
    }
}

/// Mathematical image of a [`CommitmentState`].
pub struct CommitmentStateView {
    pub firm: BlockView,
    pub soft: BlockView,
}

impl CommitmentStateView {
    /// Both blocks are well formed and the firm commitment never leads the
    /// soft commitment.
    pub open spec fn wf(self) -> bool {
        self.firm.wf() && self.soft.wf() && self.firm.number <= self.soft.number
    }
}

/// The pair of commitments the rollup node advertises: the last block
/// confirmed as finalized and the last block tentatively executed.
#[derive(Debug)]
pub struct CommitmentState {
    pub firm: Block,
    pub soft: Block,
}

impl View for CommitmentState {
    type V = CommitmentStateView;

    open spec fn view(&self) -> CommitmentStateView {
        CommitmentStateView { firm: self.firm@, soft: self.soft@ }
    }
}

impl Clone for CommitmentState {
    fn clone(&self) -> (r: Self)
        ensures
            r@ == self@,
    {
        CommitmentState { firm: self.firm.clone(), soft: self.soft.clone() }
    }
}

/// Compares two blocks for equality of their contents.
pub fn block_eq(a: &Block, b: &Block) -> (r: bool)
    ensures
        r == (a@ == b@),
{
    bytes_eq(&a.hash, &b.hash) && a.number == b.number && bytes_eq(&a.parent_hash, &b.parent_hash)
        && a.timestamp == b.timestamp
}

/// Compares two commitment states for equality of their contents.
pub fn commitment_state_eq(a: &CommitmentState, b: &CommitmentState) -> (r: bool)
    ensures
        r == (a@ == b@),
{
    block_eq(&a.firm, &b.firm) && block_eq(&a.soft, &b.soft)
}

#[derive(Debug)]
struct StateInner {
    genesis_info: GenesisInfo,
    commitment_state: CommitmentState,
}

/// The executor's published state. It starts out uninitialized; once genesis
/// info and an initial commitment state have both been fetched it carries
/// them, and producers may rely on its accessors from then on.
#[derive(Debug)]
pub struct State {
    inner: Option<StateInner>,
}

impl State {
    /// Whether genesis info and commitment state have been set.
    pub closed spec fn initialized(self) -> bool {
        self.inner is Some
    }

    /// The genesis parameters, once initialized.
    pub closed spec fn genesis(self) -> GenesisInfoView {
        self.inner->Some_0.genesis_info@
    }

    /// The firm commitment, once initialized.
    pub closed spec fn firm_view(self) -> BlockView {
        self.inner->Some_0.commitment_state@.firm
    }

    /// The soft commitment, once initialized.
    pub closed spec fn soft_view(self) -> BlockView {
        self.inner->Some_0.commitment_state@.soft
    }

    /// The commitment pair, once initialized.
    pub open spec fn commitment_view(self) -> CommitmentStateView {
        CommitmentStateView { firm: self.firm_view(), soft: self.soft_view() }
    }

    /// Once initialized, the data is well formed, the firm commitment never
    /// leads the soft commitment, and the next soft sequencer height fits in
    /// a `u64`.
    pub open spec fn wf(self) -> bool {
        self.initialized() ==> {
            &&& self.genesis().wf()
            &&& self.commitment_view().wf()
            &&& self.soft_view().number + 1 + self.genesis().sequencer_genesis_block_height
                <= u64::MAX
        }
    }

    /// The sequencer height the next firm block must carry.
    pub open spec fn next_firm_sequencer_height_spec(self) -> int {
        self.firm_view().number + 1 + self.genesis().sequencer_genesis_block_height
    }

    /// The sequencer height the next soft block must carry.
    pub open spec fn next_soft_sequencer_height_spec(self) -> int {
        self.soft_view().number + 1 + self.genesis().sequencer_genesis_block_height
    }

    /// A fresh, uninitialized state.
    pub fn new() -> (s: State)
        ensures
            !s.initialized(),
            s.wf(),
    {
        State { inner: None }
    }

    /// Whether the state has been initialized.
    pub fn is_init(&self) -> (b: bool)
        ensures
            b == self.initialized(),
    {
        self.inner.is_some()
    }

    /// Sets genesis info and the initial commitment state, moving the state
    /// into its initialized phase.
    pub fn init(&mut self, genesis_info: GenesisInfo, commitment_state: CommitmentState)
        requires
            !old(self).initialized(),
            genesis_info@.wf(),
            commitment_state@.wf(),
            commitment_state@.soft.number + 1 + genesis_info@.sequencer_genesis_block_height
                <= u64::MAX,
        ensures
            final(self).initialized(),
            final(self).wf(),
            final(self).genesis() == genesis_info@,
            final(self).firm_view() == commitment_state@.firm,
            final(self).soft_view() == commitment_state@.soft,
    {
        self.inner = Some(StateInner { genesis_info, commitment_state });
    }

    /// Replaces the commitment pair when the given one differs; reports
    /// whether anything changed.
    pub fn update_if_modified(&mut self, commitment_state: CommitmentState) -> (changed: bool)
        requires
            old(self).initialized(),
            old(self).wf(),
            commitment_state@.wf(),
            commitment_state@.soft.number + 1 + old(self).genesis().sequencer_genesis_block_height
                <= u64::MAX,
        ensures
            final(self).initialized(),
            final(self).wf(),
            final(self).genesis() == old(self).genesis(),
            final(self).commitment_view() == commitment_state@,
            changed == (old(self).commitment_view() != commitment_state@),
    {
        match &mut self.inner {
            Some(inner) => {
                if commitment_state_eq(&inner.commitment_state, &commitment_state) {
                    false
                } else {
                    inner.commitment_state = commitment_state;
                    true
                }
            },
            None => {
                proof {
                    assert(false);
                }
                false
            },
        }
    }

    /// The rollup's 32-byte id.
    pub fn rollup_id(&self) -> (r: Vec<u8>)
        requires
            self.initialized(),
        ensures
            r@ == self.genesis().rollup_id,
    {
        match &self.inner {
            Some(inner) => clone_bytes(&inner.genesis_info.rollup_id),
            None => {
                proof {
                    assert(false);
                }
                Vec::new()
            },
        }
    }

    /// The sequencer height at which the rollup's chain starts.
    pub fn sequencer_genesis_block_height(&self) -> (r: u64)
        requires
            self.initialized(),
        ensures
            r == self.genesis().sequencer_genesis_block_height,
    {
        match &self.inner {
            Some(inner) => inner.genesis_info.sequencer_genesis_block_height,
            None => {
                proof {
                    assert(false);
                }
                0
            },
        }
    }

    /// The first height of the data-availability layer to scan.
    pub fn celestia_base_block_height(&self) -> (r: u64)
        requires
            self.initialized(),
        ensures
            r == self.genesis().celestia_base_block_height,
    {
        match &self.inner {
            Some(inner) => inner.genesis_info.celestia_base_block_height,
            None => {
                proof {
                    assert(false);
                }
                0
            },
        }
    }

    /// How far past the base height the data-availability scan may range.
    pub fn celestia_block_variance(&self) -> (r: u32)
        requires
            self.initialized(),
        ensures
            r == self.genesis().celestia_block_variance,
    {
        match &self.inner {
            Some(inner) => inner.genesis_info.celestia_block_variance,
            None => {
                proof {
                    assert(false);
                }
                0
            },
        }
    }

    /// The last block confirmed as finalized.
    pub fn firm(&self) -> (b: &Block)
        requires
            self.initialized(),
        ensures
            b@ == self.firm_view(),
    {
        match &self.inner {
            Some(inner) => &inner.commitment_state.firm,
            None => {
                proof {
                    assert(false);
                }
                unreached()
            },
        }
    }

    /// The last block tentatively executed.
    pub fn soft(&self) -> (b: &Block)
        requires
            self.initialized(),
        ensures
            b@ == self.soft_view(),
    {
        match &self.inner {
            Some(inner) => &inner.commitment_state.soft,
            None => {
                proof {
                    assert(false);
                }
                unreached()
            },
        }
    }

    /// The hash on top of which the next firm block executes.
    pub fn firm_parent_hash(&self) -> (r: Vec<u8>)
        requires
            self.initialized(),
        ensures
            r@ == self.firm_view().hash,
    {
        clone_bytes(&self.firm().hash)
    }

    /// The hash on top of which the next soft block executes.
    pub fn soft_parent_hash(&self) -> (r: Vec<u8>)
        requires
            self.initialized(),
        ensures
            r@ == self.soft_view().hash,
    {
        clone_bytes(&self.soft().hash)
    }

    /// The sequencer height the next firm block must carry.
    pub fn next_firm_sequencer_height(&self) -> (r: u64)
        requires
            self.initialized(),
            self.wf(),
        ensures
            r == self.next_firm_sequencer_height_spec(),
    {
        match &self.inner {
            Some(inner) => {
                inner.commitment_state.firm.number + 1
                    + inner.genesis_info.sequencer_genesis_block_height
            },
            None => {
                proof {
                    assert(false);
                }
                0
            },
        }
    }

    /// The sequencer height the next soft block must carry.
    pub fn next_soft_sequencer_height(&self) -> (r: u64)
        requires
            self.initialized(),
            self.wf(),
        ensures
            r == self.next_soft_sequencer_height_spec(),
    {
        match &self.inner {
            Some(inner) => {
                inner.commitment_state.soft.number + 1
                    + inner.genesis_info.sequencer_genesis_block_height
            },
            None => {
                proof {
                    assert(false);
                }
                0
            },
        }
    }
}

impl Clone for State {
    fn clone(&self) -> (r: Self)
        ensures
            r.initialized() == self.initialized(),
            r.initialized() ==> {
                &&& r.genesis() == self.genesis()
                &&& r.firm_view() == self.firm_view()
                &&& r.soft_view() == self.soft_view()
            },
            self.wf() ==> r.wf(),
    {
        match &self.inner {
            Some(inner) => State {
                inner: Some(
                    StateInner {
                        genesis_info: inner.genesis_info.clone(),
                        commitment_state: inner.commitment_state.clone(),
                    },
                ),
            },
            None => State { inner: None },
        }
    }
}

} // verus!
