//! Laws about whole runs of the executor.
//!
//! The model here replays the executor's routing discipline over a sequence
//! of deliveries: a soft block at the expected height is executed and
//! remembered for finalization; a firm block at the expected height is
//! finished from its pending entry when the hash is known and executed
//! afresh otherwise; everything else changes nothing (a stale soft block is
//! dropped, a skipped height or an invalidated pending entry ends the run).
//! Executed blocks follow the chain discipline the commit contracts keep:
//! the rollup block number of a block executed at sequencer height `h` is
//! `h` less the genesis offset.
//!
//! The law at the end: no (height, hash) pair is ever executed twice.

use vstd::prelude::*;

use crate::block::BlockView;
use crate::executor::{
    firm_from_pending_transition, firm_to_same_transition, soft_commit_transition, Executor,
};

verus! {

/// A delivered block, reduced to what the routing discipline reads: the
/// sequencer block hash and the sequencer height.
pub struct InputBlock {
    pub hash: Seq<u8>,
    pub height: int,
}

/// One delivery: a soft block from the sequencer or a firm block from the
/// data-availability layer.
pub enum RunEvent {
    Soft(InputBlock),
    Firm(InputBlock),
}

/// The block a delivery carries.
pub open spec fn event_block(e: RunEvent) -> InputBlock {
    match e {
        RunEvent::Soft(b) => b,
        RunEvent::Firm(b) => b,
    }
}

/// Whether a delivery came on the soft arm.
pub open spec fn is_soft(e: RunEvent) -> bool {
    e is Soft
}

/// The executor's state as the run-level laws read it: the genesis offset,
/// the rollup block numbers of the two commitments, and the pending
/// finalization map from sequencer block hash to rollup block number.
pub struct RunState {
    pub genesis_height: int,
    pub firm_number: int,
    pub soft_number: int,
    pub pending: Map<Seq<u8>, int>,
}

impl RunState {
    /// The sequencer height the next firm block must carry.
    pub open spec fn next_firm(self) -> int {
        self.firm_number + 1 + self.genesis_height
    }

    /// The sequencer height the next soft block must carry.
    pub open spec fn next_soft(self) -> int {
        self.soft_number + 1 + self.genesis_height
    }

    /// The firm commitment never leads the soft commitment.
    pub open spec fn wf(self) -> bool {
        self.firm_number <= self.soft_number
    }
}

/// Whether this delivery calls `ExecuteBlock`: a soft block at the expected
/// height, or a firm block at the expected height whose hash is new.
pub open spec fn step_executes(s: RunState, e: RunEvent) -> bool {
    match e {
        RunEvent::Soft(b) => b.height == s.next_soft(),
        RunEvent::Firm(b) => b.height == s.next_firm() && !s.pending.contains_key(b.hash),
    }
}

/// Whether this delivery is a firm block that is serviced: at the expected
/// height, and not stopped by an invalidated pending entry.
pub open spec fn step_services_firm(s: RunState, e: RunEvent) -> bool {
    match e {
        RunEvent::Soft(_) => false,
        RunEvent::Firm(b) => b.height == s.next_firm() && (s.pending.contains_key(b.hash)
            ==> s.pending[b.hash] <= s.soft_number),
    }
}

/// One step of the executor's routing discipline.
pub open spec fn run_step(s: RunState, e: RunEvent) -> RunState {
    match e {
        RunEvent::Soft(b) => {
            if b.height == s.next_soft() {
                RunState {
                    soft_number: b.height - s.genesis_height,
                    pending: s.pending.insert(b.hash, b.height - s.genesis_height),
                    ..s
                }
            } else {
                s
            }
        },
        RunEvent::Firm(b) => {
            if b.height != s.next_firm() {
                s
            } else if s.pending.contains_key(b.hash) {
                if s.pending[b.hash] <= s.soft_number {
                    RunState {
                        firm_number: s.pending[b.hash],
                        pending: s.pending.remove(b.hash),
                        ..s
                    }
                } else {
                    s
                }
            } else {
                RunState {
                    firm_number: b.height - s.genesis_height,
                    soft_number: b.height - s.genesis_height,
                    ..s
                }
            }
        },
    }
}

/// The state after a whole run.
pub open spec fn run(s: RunState, events: Seq<RunEvent>) -> RunState
    decreases events.len(),
{
    if events.len() == 0 {
        s
    } else {
        run_step(run(s, events.drop_last()), events.last())
    }
}

/// Every `ExecuteBlock` call of a run: the arm it came from, the sequencer
/// height, and the sequencer block hash, in order.
pub open spec fn executed_triples(s: RunState, events: Seq<RunEvent>) -> Seq<(bool, int, Seq<u8>)>
    decreases events.len(),
{
    if events.len() == 0 {
        Seq::empty()
    } else {
        let prefix = events.drop_last();
        let mid = run(s, prefix);
        let collected = executed_triples(s, prefix);
        if step_executes(mid, events.last()) {
            collected.push(
                (
                    is_soft(events.last()),
                    event_block(events.last()).height,
                    event_block(events.last()).hash,
                ),
            )
        } else {
            collected
        }
    }
}

/// Every serviced firm delivery of a run: its height and hash, in order.
pub open spec fn serviced_firm_pairs(s: RunState, events: Seq<RunEvent>) -> Seq<(int, Seq<u8>)>
    decreases events.len(),
{
    if events.len() == 0 {
        Seq::empty()
    } else {
        let prefix = events.drop_last();
        let mid = run(s, prefix);
        let collected = serviced_firm_pairs(s, prefix);
        if step_services_firm(mid, events.last()) {
            collected.push((event_block(events.last()).height, event_block(events.last()).hash))
        } else {
            collected
        }
    }
}

/// Equal hashes carry equal heights across all deliveries: the sequencer
/// block hash determines the block.
pub open spec fn hashes_determine_heights(events: Seq<RunEvent>) -> bool {
    forall|i: int, j: int|
        0 <= i < events.len() && 0 <= j < events.len() && event_block(#[trigger] events[i]).hash
            == event_block(#[trigger] events[j]).hash ==> event_block(events[i]).height
            == event_block(events[j]).height
}

/// Within each arm, delivered heights strictly increase.
pub open spec fn per_arm_heights_increase(events: Seq<RunEvent>) -> bool {
    forall|i: int, j: int|
        0 <= i < j < events.len() && is_soft(#[trigger] events[i]) == is_soft(
            #[trigger] events[j],
        ) ==> event_block(events[i]).height < event_block(events[j]).height
}

/// The run invariants, proved together by induction over the deliveries.
proof fn lemma_run_invariants(s0: RunState, events: Seq<RunEvent>)
    requires
        s0.wf(),
        s0.pending == Map::<Seq<u8>, int>::empty(),
        hashes_determine_heights(events),
        per_arm_heights_increase(events),
    ensures
        run(s0, events).wf(),
        run(s0, events).genesis_height == s0.genesis_height,
        // Serviced firm heights lie strictly below the next expected one.
        forall|k: int| 0 <= k < serviced_firm_pairs(s0, events).len() ==> (
        #[trigger] serviced_firm_pairs(s0, events)[k]).0 < run(s0, events).next_firm(),
        // Every serviced firm pair is a firm delivery of the run.
        forall|k: int| 0 <= k < serviced_firm_pairs(s0, events).len() ==> exists|i: int|
            0 <= i < events.len() && !is_soft(events[i]) && event_block(#[trigger] events[i]).height
                == (#[trigger] serviced_firm_pairs(s0, events)[k]).0 && event_block(
                events[i],
            ).hash == serviced_firm_pairs(s0, events)[k].1,
        // Every executed triple is a delivery of the run, on its arm.
        forall|k: int| 0 <= k < executed_triples(s0, events).len() ==> exists|i: int|
            0 <= i < events.len() && is_soft(#[trigger] events[i]) == (
            #[trigger] executed_triples(s0, events)[k]).0 && event_block(events[i]).height
                == executed_triples(s0, events)[k].1 && event_block(events[i]).hash
                == executed_triples(s0, events)[k].2,
        // Every firm execution is a serviced firm delivery.
        forall|k: int| 0 <= k < executed_triples(s0, events).len() && !(
        #[trigger] executed_triples(s0, events)[k]).0 ==> exists|m: int|
            0 <= m < serviced_firm_pairs(s0, events).len() && (#[trigger] serviced_firm_pairs(
                s0,
                events,
            )[m]).0 == executed_triples(s0, events)[k].1 && serviced_firm_pairs(s0, events)[m].1
                == executed_triples(s0, events)[k].2,
        // A hash executed as soft is pending or was serviced as firm.
        forall|k: int| 0 <= k < executed_triples(s0, events).len() && (
        #[trigger] executed_triples(s0, events)[k]).0 ==> run(s0, events).pending.contains_key(
            executed_triples(s0, events)[k].2,
        ) || exists|m: int| 0 <= m < serviced_firm_pairs(s0, events).len() && (
        #[trigger] serviced_firm_pairs(s0, events)[m]).1 == executed_triples(s0, events)[k].2,
        // Every pending entry records a delivered soft block's number.
        forall|a: Seq<u8>| run(s0, events).pending.contains_key(a) ==> exists|i: int|
            0 <= i < events.len() && is_soft(#[trigger] events[i]) && event_block(events[i]).hash
                == a && run(s0, events).pending[a] == event_block(events[i]).height
                - s0.genesis_height,
        // No (height, hash) pair is executed twice.
        forall|k1: int, k2: int|
            0 <= k1 < k2 < executed_triples(s0, events).len() ==> !((
            #[trigger] executed_triples(s0, events)[k1]).1 == (
            #[trigger] executed_triples(s0, events)[k2]).1 && executed_triples(s0, events)[k1].2
                == executed_triples(s0, events)[k2].2),
    decreases events.len(),
{
    if events.len() == 0 {
        assert(executed_triples(s0, events) =~= Seq::<(bool, int, Seq<u8>)>::empty());
        assert(serviced_firm_pairs(s0, events) =~= Seq::<(int, Seq<u8>)>::empty());
    } else {
        let prefix = events.drop_last();
        let e = events.last();
        let n = prefix.len() as int;
        assert forall|i: int| 0 <= i < n implies prefix[i] == events[i] by {}
        lemma_run_invariants(s0, prefix);
        let mid = run(s0, prefix);
        let post = run(s0, events);
        let t0 = executed_triples(s0, prefix);
        let t1 = executed_triples(s0, events);
        let f0 = serviced_firm_pairs(s0, prefix);
        let f1 = serviced_firm_pairs(s0, events);
        assert(post == run_step(mid, e));

        if step_executes(mid, e) {
            assert(t1 == t0.push((is_soft(e), event_block(e).height, event_block(e).hash)));
        } else {
            assert(t1 == t0);
        }
        if step_services_firm(mid, e) {
            assert(f1 == f0.push((event_block(e).height, event_block(e).hash)));
        } else {
            assert(f1 == f0);
        }

        // The new executed triple, if any, collides with no earlier one.
        if step_executes(mid, e) {
            let h = event_block(e).height;
            let a = event_block(e).hash;
            assert forall|k: int| 0 <= k < t0.len() implies !(t0[k].1 == h && t0[k].2 == a) by {
                let i = choose|i: int|
                    0 <= i < prefix.len() && is_soft(#[trigger] prefix[i]) == t0[k].0
                        && event_block(prefix[i]).height == t0[k].1 && event_block(prefix[i]).hash
                        == t0[k].2;
                if t0[k].0 == is_soft(e) {
                    // Same arm: delivered heights strictly increase.
                    assert(event_block(events[i]).height < event_block(events[n]).height);
                } else if t0[k].1 == h && t0[k].2 == a {
                    if is_soft(e) {
                        // A soft execution at the height of an earlier firm
                        // execution is impossible: firm services stay below
                        // the next firm height, which never leads the next
                        // soft one.
                        let m = choose|m: int|
                            0 <= m < f0.len() && (#[trigger] f0[m]).0 == t0[k].1 && f0[m].1
                                == t0[k].2;
                        assert(f0[m].0 < mid.next_firm());
                        assert(mid.next_firm() <= mid.next_soft());
                        assert(h == mid.next_soft());
                        assert(false);
                    } else {
                        // A firm execution of a hash executed as soft is
                        // impossible: the hash is either still pending (then
                        // the firm block is finished, not executed) or it was
                        // serviced as firm before, strictly below this height.
                        if mid.pending.contains_key(a) {
                            assert(!step_executes(mid, e));
                            assert(false);
                        } else {
                            let m = choose|m: int|
                                0 <= m < f0.len() && (#[trigger] f0[m]).1 == t0[k].2;
                            // The earlier firm service carried hash a, so by
                            // hash-determines-height it sat at height h.
                            let i2 = choose|i2: int|
                                0 <= i2 < prefix.len() && !is_soft(prefix[i2]) && event_block(
                                    #[trigger] prefix[i2],
                                ).height == f0[m].0 && event_block(prefix[i2]).hash == f0[m].1;
                            assert(event_block(events[i2]).hash == event_block(events[n]).hash);
                            assert(event_block(events[i2]).height == event_block(
                                events[n],
                            ).height);
                            assert(f0[m].0 == h);
                            assert(f0[m].0 < mid.next_firm());
                            assert(h == mid.next_firm());
                            assert(false);
                        }
                    }
                }
            }
        }

        // The pending map after the step still records delivered soft blocks.
        match e {
            RunEvent::Soft(b) => {
                if b.height == mid.next_soft() {
                    assert forall|a: Seq<u8>| post.pending.contains_key(a) implies exists|i: int|
                        0 <= i < events.len() && is_soft(#[trigger] events[i]) && event_block(
                            events[i],
                        ).hash == a && post.pending[a] == event_block(events[i]).height
                            - s0.genesis_height by {
                        if a == b.hash {
                            assert(is_soft(events[n]) && event_block(events[n]).hash == a
                                && post.pending[a] == event_block(events[n]).height
                                - s0.genesis_height);
                        } else {
                            assert(mid.pending.contains_key(a));
                            let i = choose|i: int|
                                0 <= i < prefix.len() && is_soft(#[trigger] prefix[i])
                                    && event_block(prefix[i]).hash == a && mid.pending[a]
                                    == event_block(prefix[i]).height - s0.genesis_height;
                            assert(is_soft(events[i]) && event_block(events[i]).hash == a
                                && post.pending[a] == event_block(events[i]).height
                                - s0.genesis_height);
                        }
                    }
                }
            },
            RunEvent::Firm(b) => {
                if step_services_firm(mid, e) && mid.pending.contains_key(b.hash) {
                    // The entry records the soft delivery of this hash, whose
                    // height equals this delivery's height; the firm number
                    // moves to exactly this height's number.
                    let i = choose|i: int|
                        0 <= i < prefix.len() && is_soft(#[trigger] prefix[i]) && event_block(
                            prefix[i],
                        ).hash == b.hash && mid.pending[b.hash] == event_block(prefix[i]).height
                            - s0.genesis_height;
                    assert(event_block(events[i]).hash == event_block(events[n]).hash);
                    assert(event_block(events[i]).height == event_block(events[n]).height);
                    assert(post.firm_number == b.height - s0.genesis_height);
                }
            },
        }

        // Serviced firm heights stay below the next firm height.
        if step_services_firm(mid, e) {
            assert(event_block(e).height == mid.next_firm());
            assert(post.next_firm() == event_block(e).height + 1);
        }
        assert forall|k: int| 0 <= k < f1.len() implies (#[trigger] f1[k]).0
            < post.next_firm() by {
            if k < f0.len() {
                assert(f0[k].0 < mid.next_firm());
                if step_services_firm(mid, e) {
                    assert(mid.next_firm() == event_block(e).height);
                } else {
                    assert(post.next_firm() == mid.next_firm());
                }
            }
        }

        // Firm executions remain serviced firm deliveries.
        assert forall|k: int| 0 <= k < t1.len() && !(#[trigger] t1[k]).0 implies exists|m: int|
            0 <= m < f1.len() && (#[trigger] f1[m]).0 == t1[k].1 && f1[m].1 == t1[k].2 by {
            if k < t0.len() {
                let m = choose|m: int|
                    0 <= m < f0.len() && (#[trigger] f0[m]).0 == t0[k].1 && f0[m].1 == t0[k].2;
                assert(f1[m] == f0[m]);
            } else {
                // A firm execution is serviced: the hash is not pending.
                assert(step_services_firm(mid, e));
                let m = f1.len() - 1;
                assert((#[trigger] f1[m]).0 == t1[k].1 && f1[m].1 == t1[k].2);
            }
        }

        // Soft-executed hashes stay pending or firm-serviced.
        assert forall|k: int| 0 <= k < t1.len() && (#[trigger] t1[k]).0 implies
            post.pending.contains_key(t1[k].2) || exists|m: int|
                0 <= m < f1.len() && (#[trigger] f1[m]).1 == t1[k].2 by {
            if k < t0.len() {
                if mid.pending.contains_key(t0[k].2) {
                    if post.pending.contains_key(t0[k].2) {
                    } else {
                        // Only a serviced firm block with this hash removes
                        // the entry.
                        assert(step_services_firm(mid, e) && event_block(e).hash == t0[k].2);
                        let m = f1.len() - 1;
                        assert(f1[m].1 == t0[k].2);
                    }
                } else {
                    let m = choose|m: int| 0 <= m < f0.len() && (#[trigger] f0[m]).1 == t0[k].2;
                    assert(f1[m] == f0[m]);
                }
            } else {
                // The new triple is a soft execution: its hash was just
                // inserted into pending.
                assert(post.pending.contains_key(t1[k].2));
            }
        }
    }
}

/// Law: along any run whatsoever, the firm commitment never leads the soft
/// commitment.
pub proof fn lemma_run_preserves_order(s0: RunState, events: Seq<RunEvent>)
    requires
        s0.wf(),
    ensures
        run(s0, events).wf(),
    decreases events.len(),
{
    if events.len() > 0 {
        lemma_run_preserves_order(s0, events.drop_last());
    }
}

/// The run-level image of an initialized executor: the genesis offset, the
/// commitment numbers, and the numbers of the pending blocks.
pub open spec fn run_state_of(e: Executor) -> RunState {
    RunState {
        genesis_height: e.genesis().sequencer_genesis_block_height as int,
        firm_number: e.firm_view().number as int,
        soft_number: e.soft_view().number as int,
        pending: Map::new(
            |k: Seq<u8>| e.pending_has(k),
            |k: Seq<u8>| e.pending_at(k).number as int,
        ),
    }
}

/// Committing a soft block at the expected height is the model's soft step,
/// and it executes. The chain discipline ties the executed block's number to
/// the height.
pub proof fn lemma_soft_commit_refines(
    pre: Executor,
    block_hash: Seq<u8>,
    executed: BlockView,
    post: Executor,
    b: InputBlock,
)
    requires
        pre.wf(),
        pre.initialized(),
        soft_commit_transition(pre, block_hash, executed, post),
        b.hash == block_hash,
        b.height == pre.next_soft_sequencer_height_spec(),
        executed.number == pre.soft_view().number + 1,
    ensures
        step_executes(run_state_of(pre), RunEvent::Soft(b)),
        run_state_of(post) == run_step(run_state_of(pre), RunEvent::Soft(b)),
{
    let m0 = run_state_of(pre);
    let m1 = run_state_of(post);
    let stepped = run_step(m0, RunEvent::Soft(b));
    assert(m1.pending =~= stepped.pending);
    assert(m1 == stepped);
}

/// Finishing a firm block from its valid pending entry at the expected
/// height is the model's firm step on a known hash, and it does not execute.
pub proof fn lemma_firm_from_pending_refines(
    pre: Executor,
    block_hash: Seq<u8>,
    post: Executor,
    b: InputBlock,
)
    requires
        pre.wf(),
        pre.initialized(),
        pre.pending_has(block_hash),
        pre.pending_at(block_hash).number <= pre.soft_view().number,
        firm_from_pending_transition(pre, block_hash, post),
        b.hash == block_hash,
        b.height == pre.next_firm_sequencer_height_spec(),
    ensures
        !step_executes(run_state_of(pre), RunEvent::Firm(b)),
        step_services_firm(run_state_of(pre), RunEvent::Firm(b)),
        run_state_of(post) == run_step(run_state_of(pre), RunEvent::Firm(b)),
{
    let m0 = run_state_of(pre);
    let m1 = run_state_of(post);
    let stepped = run_step(m0, RunEvent::Firm(b));
    assert(m1.pending =~= stepped.pending);
    assert(m1 == stepped);
}

/// Committing a fresh firm block at the expected height is the model's firm
/// step on a new hash, and it executes. The chain discipline ties the
/// executed block's number to the height.
pub proof fn lemma_firm_to_same_refines(
    pre: Executor,
    executed: BlockView,
    post: Executor,
    b: InputBlock,
)
    requires
        pre.wf(),
        pre.initialized(),
        !pre.pending_has(b.hash),
        firm_to_same_transition(pre, executed, post),
        b.height == pre.next_firm_sequencer_height_spec(),
        executed.number == pre.firm_view().number + 1,
    ensures
        step_executes(run_state_of(pre), RunEvent::Firm(b)),
        run_state_of(post) == run_step(run_state_of(pre), RunEvent::Firm(b)),
{
    let m0 = run_state_of(pre);
    let m1 = run_state_of(post);
    let stepped = run_step(m0, RunEvent::Firm(b));
    assert forall|k: Seq<u8>| post.pending_has(k) implies pre.pending_has(k)
        && post.pending_at(k) == pre.pending_at(k) by {}
    assert forall|k: Seq<u8>| pre.pending_has(k) implies post.pending_has(k) by {}
    assert(m1.pending =~= stepped.pending);
    assert(m1 == stepped);
}

/// Law: no block is executed twice. Along any run whose deliveries respect
/// per-arm height monotonicity and whose hashes determine their blocks'
/// heights, the (height, hash) pairs handed to `ExecuteBlock` are pairwise
/// distinct: work is never repeated across the two arms.
pub proof fn lemma_no_double_execution(s0: RunState, events: Seq<RunEvent>)
    requires
        s0.wf(),
        s0.pending == Map::<Seq<u8>, int>::empty(),
        hashes_determine_heights(events),
        per_arm_heights_increase(events),
    ensures
        forall|k1: int, k2: int|
            0 <= k1 < k2 < executed_triples(s0, events).len() ==> !((
            #[trigger] executed_triples(s0, events)[k1]).1 == (
            #[trigger] executed_triples(s0, events)[k2]).1 && executed_triples(s0, events)[k1].2
                == executed_triples(s0, events)[k2].2),
{
    lemma_run_invariants(s0, events);
}

} // verus!
