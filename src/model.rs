//! A model of the vector slot and of the no-EOI byte under every
//! interleaving of hypervisor writes with the guest's steps, and the laws
//! that the guest's decisions make true of it.
//!
//! A pass is modelled as `process_pending_events` runs it: it reads the
//! slot, hands what it read to `slot_action`, tries a swap of that value
//! for 0, dispatches on success, and hands the value a failed swap returns
//! back to `slot_action`. The hypervisor may write the slot between any
//! two of these steps, and a weak swap may fail though the value matched.
use vstd::prelude::*;
use vstd::multiset::Multiset;
use crate::protocol::{dispatchable, eoi_claim, events_pending_spec};
use crate::flags::mc_pending_bit;
use crate::doorbell::DRAIN_ROUND_LIMIT;

verus! {

broadcast use vstd::seq_lib::group_to_multiset_ensures, vstd::multiset::group_multiset_axioms;

/// One move of an interleaving.
#[derive(Clone, Copy, Debug, PartialEq, Eq)]
pub enum Turn {
    /// The hypervisor writes this vector into the slot.
    Post(u8),
    /// The pass takes its next step.
    Step,
    /// The pass takes its next step, and a swap in it fails spuriously.
    Spurious,
}

/// The state of the slot and of one pass over it, with the history that
/// the laws speak of.
pub struct SlotRun {
    /// What the slot holds.
    pub slot: u8,
    /// `None`: the pass reads the slot next; `Some(v)`: it tries to swap
    /// `v` for 0 next.
    pub seen: Option<u8>,
    /// The pass has ended on a vector it may not take.
    pub done: bool,
    /// The vector the pass ended on.
    pub stop_value: u8,
    /// No write by the hypervisor since the pass ended.
    pub quiet: bool,
    /// The slot holds a vector that was posted and not yet taken.
    pub fresh: bool,
    /// Every vector posted, the slot's first content included.
    pub posted: Seq<u8>,
    /// Every vector handed to dispatch, in order.
    pub dispatched: Seq<u8>,
    /// Every posted vector that the hypervisor itself replaced before it
    /// was taken.
    pub overwritten: Seq<u8>,
}

/// A pass about to start on a slot that holds `slot`.
pub open spec fn pass_start(slot: u8) -> SlotRun {
    SlotRun {
        slot,
        seen: None,
        done: false,
        stop_value: 0,
        quiet: false,
        fresh: true,
        posted: seq![slot],
        dispatched: Seq::empty(),
        overwritten: Seq::empty(),
    }
}

/// The pass hands a value it read to `slot_action`.
pub open spec fn observe(s: SlotRun, w: u8, tpr: usize) -> SlotRun {
    if dispatchable(w, tpr) {
        SlotRun { seen: Some(w), ..s }
    } else {
        SlotRun { seen: None, done: true, stop_value: w, quiet: true, ..s }
    }
}

/// One move.
pub open spec fn slot_step(s: SlotRun, t: Turn, tpr: usize) -> SlotRun {
    match t {
        Turn::Post(w) => SlotRun {
            slot: w,
            fresh: true,
            quiet: false,
            posted: s.posted.push(w),
            overwritten: if s.fresh { s.overwritten.push(s.slot) } else { s.overwritten },
            ..s
        },
        Turn::Step => {
            if s.done {
                s
            } else {
                match s.seen {
                    None => observe(s, s.slot, tpr),
                    Some(v) => {
                        if s.slot == v {
                            SlotRun { slot: 0, fresh: false, seen: None, dispatched: s.dispatched.push(v), ..s }
                        } else {
                            observe(s, s.slot, tpr)
                        }
                    },
                }
            }
        },
        Turn::Spurious => {
            if s.done {
                s
            } else {
                observe(s, s.slot, tpr)
            }
        },
    }
}

/// The state after the moves `turns`.
pub open spec fn slot_run(s: SlotRun, turns: Seq<Turn>, tpr: usize) -> SlotRun
    decreases turns.len(),
{
    if turns.len() == 0 {
        s
    } else {
        slot_step(slot_run(s, turns.drop_last(), tpr), turns.last(), tpr)
    }
}

/// One more move extends a run by one step.
pub proof fn lemma_slot_run_push(s: SlotRun, turns: Seq<Turn>, t: Turn, tpr: usize)
    ensures
        slot_run(s, turns.push(t), tpr) == slot_step(slot_run(s, turns, tpr), t, tpr),
{
    assert(turns.push(t).drop_last() =~= turns);
}

/// What is left in the slot, counted as a multiset.
pub open spec fn left_in_slot(s: SlotRun) -> Multiset<u8> {
    if s.fresh {
        Multiset::singleton(s.slot)
    } else {
        Multiset::empty()
    }
}

pub open spec fn slot_run_inv(s: SlotRun, tpr: usize) -> bool {
    &&& s.posted.to_multiset() == s.dispatched.to_multiset().add(s.overwritten.to_multiset()).add(
        left_in_slot(s),
    )
    &&& !s.fresh ==> s.slot == 0
    &&& forall|i: int| 0 <= i < s.dispatched.len() ==> dispatchable(#[trigger] s.dispatched[i], tpr)
    &&& s.seen is Some ==> dispatchable(s.seen->Some_0, tpr)
    &&& s.done ==> !dispatchable(s.stop_value, tpr) && s.seen is None
    &&& s.done && s.quiet ==> s.slot == s.stop_value
}

proof fn lemma_slot_step_inv(s: SlotRun, t: Turn, tpr: usize)
    requires
        slot_run_inv(s, tpr),
    ensures
        slot_run_inv(slot_step(s, t, tpr), tpr),
{
    let n = slot_step(s, t, tpr);
    match t {
        Turn::Post(w) => {
            assert(n.posted.to_multiset() =~= s.posted.to_multiset().insert(w));
            if s.fresh {
                assert(n.overwritten.to_multiset() =~= s.overwritten.to_multiset().insert(s.slot));
                assert(n.posted.to_multiset() =~= n.dispatched.to_multiset().add(
                    n.overwritten.to_multiset(),
                ).add(left_in_slot(n)));
            } else {
                assert(n.posted.to_multiset() =~= n.dispatched.to_multiset().add(
                    n.overwritten.to_multiset(),
                ).add(left_in_slot(n)));
            }
        },
        Turn::Step => {
            if !s.done && s.seen is Some && s.slot == s.seen->Some_0 {
                let v = s.seen->Some_0;
                assert(v != 0) by {
                    assert(dispatchable(v, tpr));
                }
                assert(s.fresh);
                assert(n.dispatched.to_multiset() =~= s.dispatched.to_multiset().insert(v));
                assert(n.posted.to_multiset() =~= n.dispatched.to_multiset().add(
                    n.overwritten.to_multiset(),
                ).add(left_in_slot(n)));
                assert forall|i: int| 0 <= i < n.dispatched.len() implies dispatchable(
                    #[trigger] n.dispatched[i],
                    tpr,
                ) by {
                    if i < s.dispatched.len() {
                        assert(n.dispatched[i] == s.dispatched[i]);
                    }
                }
            }
        },
        Turn::Spurious => {},
    }
}

proof fn lemma_slot_run_inv(s: SlotRun, turns: Seq<Turn>, tpr: usize)
    requires
        slot_run_inv(s, tpr),
    ensures
        slot_run_inv(slot_run(s, turns, tpr), tpr),
    decreases turns.len(),
{
    if turns.len() > 0 {
        lemma_slot_run_inv(s, turns.drop_last(), tpr);
        lemma_slot_step_inv(slot_run(s, turns.drop_last(), tpr), turns.last(), tpr);
    }
}

/// However the hypervisor's writes interleave with a pass, every posted
/// vector is accounted for exactly once: dispatched, replaced by the
/// hypervisor before it was taken, or still in the slot. Only vectors above
/// the task priority are dispatched, and a pass that has ended, with no
/// write since, leaves in the slot a vector it may not take.
pub proof fn lemma_pass_accounts_for_every_vector(slot: u8, turns: Seq<Turn>, tpr: usize)
    ensures
        ({
            let s = slot_run(pass_start(slot), turns, tpr);
            &&& s.posted.to_multiset() == s.dispatched.to_multiset().add(
                s.overwritten.to_multiset(),
            ).add(left_in_slot(s))
            &&& forall|i: int|
                0 <= i < s.dispatched.len() ==> dispatchable(#[trigger] s.dispatched[i], tpr)
            &&& s.done && s.quiet ==> !dispatchable(s.slot, tpr)
        }),
{
    let s0 = pass_start(slot);
    assert(s0.posted.to_multiset() =~= Seq::<u8>::empty().push(slot).to_multiset());
    assert(s0.posted.to_multiset() =~= s0.dispatched.to_multiset().add(
        s0.overwritten.to_multiset(),
    ).add(left_in_slot(s0)));
    lemma_slot_run_inv(s0, turns, tpr);
}

/// What one call of `process_pending_events` did.
pub struct PassLog {
    /// The status byte captured as the pass cleared its flags.
    pub prior: u8,
    /// The vector first read from the slot.
    pub start: u8,
    /// The moves of the pass, with the hypervisor's writes it saw.
    pub turns: Seq<Turn>,
    /// The pass ended on its step limit.
    pub hit_limit: bool,
}

/// The pass that a log records, as a run of the slot model.
pub open spec fn pass_run(log: PassLog, tpr: usize) -> SlotRun {
    slot_run(pass_start(log.start), log.turns, tpr)
}

/// What one call of `no_eoi_required` did.
pub struct EoiLog {
    /// The byte first read.
    pub start: u8,
    /// The moves: `Some(w)` a write by the hypervisor, `None` the claim.
    pub moves: Seq<Option<u8>>,
}

/// What one call of `process_if_required` did, round by round.
pub struct DrainLog {
    /// The status byte and the vector each gate check read.
    pub gates: Seq<(u8, u8)>,
    /// The log of each pass.
    pub passes: Seq<PassLog>,
    /// The level `pop_nesting` returned after each pass it followed.
    pub depths: Seq<isize>,
}

/// Every pass of a drain ran after a gate check that was true, and every
/// pass but the last ended normally with the nesting level back to zero.
pub open spec fn drain_rounds_ok(log: DrainLog, tpr: usize) -> bool {
    &&& log.passes.len() <= log.gates.len() <= log.passes.len() + 1
    &&& log.passes.len() <= DRAIN_ROUND_LIMIT
    &&& log.depths.len() <= log.passes.len()
    &&& forall|i: int|
        0 <= i < log.passes.len() ==> events_pending_spec(
            #[trigger] log.gates[i].0,
            log.gates[i].1,
            tpr,
        )
    &&& forall|i: int|
        0 <= i < log.passes.len() - 1 ==> !mc_pending_bit(#[trigger] log.passes[i].prior)
            && log.depths[i] == 0
}

/// A drain that returned normally: the last gate check was false, or the
/// round limit was reached; every pass ended normally with the nesting
/// level back to zero.
pub open spec fn drain_finished(log: DrainLog, tpr: usize) -> bool {
    &&& (log.gates.len() == log.passes.len() + 1 && !events_pending_spec(
        log.gates.last().0,
        log.gates.last().1,
        tpr,
    )) || (log.gates.len() == log.passes.len() && log.passes.len() == DRAIN_ROUND_LIMIT)
    &&& log.depths.len() == log.passes.len()
    &&& forall|i: int|
        0 <= i < log.passes.len() ==> !mc_pending_bit(#[trigger] log.passes[i].prior)
            && log.depths[i] == 0
}

/// Whether the hypervisor makes no move in `turns`.
pub open spec fn no_posts(turns: Seq<Turn>) -> bool {
    forall|i: int| 0 <= i < turns.len() ==> !(#[trigger] turns[i] is Post)
}

/// A pass over a slot holding a vector at or below the task priority, with
/// no hypervisor write, dispatches nothing and leaves the vector in place.
pub proof fn lemma_low_vector_stays(slot: u8, turns: Seq<Turn>, tpr: usize)
    requires
        !dispatchable(slot, tpr),
        no_posts(turns),
    ensures
        slot_run(pass_start(slot), turns, tpr).dispatched.len() == 0,
        slot_run(pass_start(slot), turns, tpr).slot == slot,
        slot_run(pass_start(slot), turns, tpr).seen is None,
    decreases turns.len(),
{
    if turns.len() > 0 {
        let prefix = turns.drop_last();
        assert(no_posts(prefix)) by {
            assert forall|i: int| 0 <= i < prefix.len() implies !(#[trigger] prefix[i] is Post) by {
                assert(prefix[i] == turns[i]);
            }
        }
        lemma_low_vector_stays(slot, prefix, tpr);
        assert(!(turns[turns.len() - 1] is Post));
    }
}

pub open spec fn quiet_inv(s: SlotRun, start: u8, tpr: usize) -> bool {
    &&& s.done ==> s.seen is None
    &&& s.dispatched.len() == 0 ==> s.slot == start && (s.seen is None || s.seen == Some(start))
    &&& s.dispatched.len() == 0 && s.done ==> !dispatchable(start, tpr)
    &&& s.dispatched.len() > 0 ==> s.dispatched == seq![start] && s.slot == 0 && s.seen is None
}

proof fn lemma_quiet_inv(start: u8, turns: Seq<Turn>, tpr: usize)
    requires
        no_posts(turns),
    ensures
        quiet_inv(slot_run(pass_start(start), turns, tpr), start, tpr),
    decreases turns.len(),
{
    if turns.len() > 0 {
        let prefix = turns.drop_last();
        assert(no_posts(prefix)) by {
            assert forall|i: int| 0 <= i < prefix.len() implies !(#[trigger] prefix[i] is Post) by {
                assert(prefix[i] == turns[i]);
            }
        }
        lemma_quiet_inv(start, prefix, tpr);
        assert(!(turns[turns.len() - 1] is Post));
        let s = slot_run(pass_start(start), prefix, tpr);
        if s.dispatched.len() == 0 && s.seen == Some(start) && !s.done {
            assert(dispatchable(start, tpr));
            assert(seq![start] =~= Seq::<u8>::empty().push(start));
            assert(s.dispatched =~= Seq::<u8>::empty());
        }
    }
}

/// A pass during which the hypervisor writes nothing dispatches at most
/// once, and only the vector it first read: that vector when it is above
/// the task priority and the pass has ended, leaving the slot at 0; nothing
/// when it is not, leaving it in place.
pub proof fn lemma_quiet_pass(start: u8, turns: Seq<Turn>, tpr: usize)
    requires
        no_posts(turns),
    ensures
        ({
            let s = slot_run(pass_start(start), turns, tpr);
            &&& s.dispatched.len() <= 1
            &&& s.dispatched.len() == 1 ==> s.dispatched[0] == start && s.slot == 0
            &&& s.done && dispatchable(start, tpr) ==> s.dispatched == seq![start] && s.slot == 0
            &&& !dispatchable(start, tpr) ==> s.dispatched.len() == 0 && s.slot == start
        }),
{
    lemma_quiet_inv(start, turns, tpr);
    if !dispatchable(start, tpr) {
        lemma_low_vector_stays(start, turns, tpr);
    }
}

/// Draining is idempotent: once a pass has ended with no hypervisor write
/// since, a second pass with no hypervisor write dispatches nothing and
/// leaves the slot as it found it.
pub proof fn lemma_second_pass_is_idle(slot: u8, first: Seq<Turn>, second: Seq<Turn>, tpr: usize)
    requires
        slot_run(pass_start(slot), first, tpr).done,
        slot_run(pass_start(slot), first, tpr).quiet,
        no_posts(second),
    ensures
        ({
            let left = slot_run(pass_start(slot), first, tpr).slot;
            &&& slot_run(pass_start(left), second, tpr).dispatched.len() == 0
            &&& slot_run(pass_start(left), second, tpr).slot == left
        }),
{
    lemma_pass_accounts_for_every_vector(slot, first, tpr);
    lemma_low_vector_stays(slot_run(pass_start(slot), first, tpr).slot, second, tpr);
}

/// The no-EOI byte under hypervisor writes and guest claims.
pub struct EoiRun {
    /// What the byte holds.
    pub byte: u8,
    /// Claims that answered true.
    pub claims: nat,
    /// Hypervisor writes that set bit 0.
    pub sets: nat,
}

/// Bit 0 of a byte, as a count.
pub open spec fn bit0(b: u8) -> nat {
    if b & 1 == 1 { 1 } else { 0 }
}

/// One move: `Some(w)` the hypervisor writes `w`, `None` the guest claims.
pub open spec fn eoi_step(s: EoiRun, m: Option<u8>) -> EoiRun {
    match m {
        Some(w) => EoiRun { byte: w, sets: s.sets + bit0(w), ..s },
        None => EoiRun {
            byte: eoi_claim(s.byte).1,
            claims: s.claims + if eoi_claim(s.byte).0 { 1nat } else { 0nat },
            ..s
        },
    }
}

/// The state after the moves `moves`, from a byte holding `b`.
pub open spec fn eoi_run(b: u8, moves: Seq<Option<u8>>) -> EoiRun
    decreases moves.len(),
{
    if moves.len() == 0 {
        EoiRun { byte: b, claims: 0, sets: 0 }
    } else {
        eoi_step(eoi_run(b, moves.drop_last()), moves.last())
    }
}

/// One more move extends a run of the no-EOI byte by one step.
pub proof fn lemma_eoi_run_push(b: u8, moves: Seq<Option<u8>>, m: Option<u8>)
    ensures
        eoi_run(b, moves.push(m)) == eoi_step(eoi_run(b, moves), m),
{
    assert(moves.push(m).drop_last() =~= moves);
}

/// A claim that answers true clears bit 0, so that a claim after it, with
/// no hypervisor write between, answers false and changes nothing.
pub proof fn lemma_claim_clears_bit(b: u8)
    requires
        eoi_claim(b).0,
    ensures
        !eoi_claim(eoi_claim(b).1).0,
        eoi_claim(eoi_claim(b).1).1 == eoi_claim(b).1,
{
    assert((b & 0xfe) & 1 == 0) by (bit_vector);
}

/// However claims interleave with hypervisor writes, the claims that answer
/// true are no more than the times the hypervisor set bit 0, counting a bit
/// already set at the start.
pub proof fn lemma_claims_bounded_by_sets(b: u8, moves: Seq<Option<u8>>)
    ensures
        eoi_run(b, moves).claims <= eoi_run(b, moves).sets + bit0(b),
{
    lemma_claims_inv(b, moves);
}

proof fn lemma_claims_inv(b: u8, moves: Seq<Option<u8>>)
    ensures
        eoi_run(b, moves).claims + bit0(eoi_run(b, moves).byte) <= eoi_run(b, moves).sets + bit0(b),
    decreases moves.len(),
{
    if moves.len() > 0 {
        lemma_claims_inv(b, moves.drop_last());
        let x = eoi_run(b, moves.drop_last()).byte;
        assert((x & 0xfe) & 1 == 0) by (bit_vector);
        assert(x & 1 != 1 ==> x & 1 == 0) by (bit_vector);
    }
}

} // verus!
