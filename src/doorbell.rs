//! The doorbell page shared with the hypervisor, and the guest's work on it.
//!
//! Every field is an atomic: the hypervisor may write any of them at any
//! moment, so nothing is known of a value until it has been read, and a
//! read says nothing of the next one. The decisions taken on what was read
//! are the functions of `protocol`.
use vstd::prelude::*;
use core::sync::atomic::{AtomicU32, AtomicU8, Ordering};
use crate::flags::HVDoorbellFlags;
use crate::flags::mc_pending_bit;
use crate::model::{
    drain_finished, drain_rounds_ok, eoi_run, lemma_eoi_run_push, lemma_pass_accounts_for_every_vector,
    lemma_slot_run_push, pass_run, pass_start, slot_run, DrainLog, EoiLog, PassLog, Turn,
};
use crate::protocol::{
    class_of, dispatchable, eoi_claim, events_pending_spec, check_nesting, check_pass_flags, events_pending, no_eoi_action, slot_action,
    DrainError, EoiAction, PassError, SlotAction, PASS_CLEAR_MASK,
};

verus! {

/// The most slot operations (reads that find a vector to take, and swap
/// attempts) in one pass. A vector still pending when the limit is reached
/// stays in the slot, visible to the hypervisor as not taken, and is seen
/// by the next pass.
pub const PASS_STEP_LIMIT: usize = 256;

/// The most passes one drain runs before it returns; work still signalled
/// then is taken at the next safe point.
pub const DRAIN_ROUND_LIMIT: usize = 64;

/// The most attempts the no-EOI query makes to clear its bit.
pub const EOI_CLAIM_LIMIT: usize = 64;

/// Extended interrupt state of one privilege level: a status register,
/// seven request words and eight in-service words. This code forwards it
/// untouched.
#[derive(Debug)]
pub struct HVExtIntInfo {
    pub status: AtomicU32,
    pub irr: [AtomicU32; 7],
    pub isr: [AtomicU32; 8],
}

impl HVExtIntInfo {
    /// A block with every word zero.
    pub fn new() -> (r: Self) {
        HVExtIntInfo {
            status: AtomicU32::new(0),
            irr: [AtomicU32::new(0), AtomicU32::new(0), AtomicU32::new(0), AtomicU32::new(0), AtomicU32::new(0), AtomicU32::new(0), AtomicU32::new(0)],
            isr: [AtomicU32::new(0), AtomicU32::new(0), AtomicU32::new(0), AtomicU32::new(0), AtomicU32::new(0), AtomicU32::new(0), AtomicU32::new(0), AtomicU32::new(0)],
        }
    }
}

/// The doorbell page: byte 0 the pending vector (0 when none), byte 1 the
/// status flags, byte 2 the no-EOI byte, byte 3 the per-level event byte,
/// bytes 4 to 63 reserved, then one extended interrupt block for each of
/// three privilege levels.
#[derive(Debug)]
pub struct HVDoorbell {
    pub vector: AtomicU8,
    pub flags: AtomicU8,
    pub no_eoi_required: AtomicU8,
    pub per_vmpl_events: AtomicU8,
    reserved_63_4: [AtomicU8; 60],
    pub per_vmpl: [HVExtIntInfo; 3],
}

impl HVDoorbell {
    /// A page with every byte zero, as it is handed to the hypervisor.
    pub fn new() -> (r: Self) {
        HVDoorbell {
            vector: AtomicU8::new(0),
            flags: AtomicU8::new(0),
            no_eoi_required: AtomicU8::new(0),
            per_vmpl_events: AtomicU8::new(0),
            reserved_63_4: [
                AtomicU8::new(0), AtomicU8::new(0), AtomicU8::new(0), AtomicU8::new(0), AtomicU8::new(0), AtomicU8::new(0), AtomicU8::new(0), AtomicU8::new(0), AtomicU8::new(0), AtomicU8::new(0),
                AtomicU8::new(0), AtomicU8::new(0), AtomicU8::new(0), AtomicU8::new(0), AtomicU8::new(0), AtomicU8::new(0), AtomicU8::new(0), AtomicU8::new(0), AtomicU8::new(0), AtomicU8::new(0),
                AtomicU8::new(0), AtomicU8::new(0), AtomicU8::new(0), AtomicU8::new(0), AtomicU8::new(0), AtomicU8::new(0), AtomicU8::new(0), AtomicU8::new(0), AtomicU8::new(0), AtomicU8::new(0),
                AtomicU8::new(0), AtomicU8::new(0), AtomicU8::new(0), AtomicU8::new(0), AtomicU8::new(0), AtomicU8::new(0), AtomicU8::new(0), AtomicU8::new(0), AtomicU8::new(0), AtomicU8::new(0),
                AtomicU8::new(0), AtomicU8::new(0), AtomicU8::new(0), AtomicU8::new(0), AtomicU8::new(0), AtomicU8::new(0), AtomicU8::new(0), AtomicU8::new(0), AtomicU8::new(0), AtomicU8::new(0),
                AtomicU8::new(0), AtomicU8::new(0), AtomicU8::new(0), AtomicU8::new(0), AtomicU8::new(0), AtomicU8::new(0), AtomicU8::new(0), AtomicU8::new(0), AtomicU8::new(0), AtomicU8::new(0),
            ],
            per_vmpl: [HVExtIntInfo::new(), HVExtIntInfo::new(), HVExtIntInfo::new()],
        }
    }

    /// One pass over the page; interrupts must already be masked.
    ///
    /// Clears `no_further_signal` and `nmi_pending` in one step, so that a
    /// signal arriving later is seen by a later pass. Fails with
    /// `MachineCheck`, having dispatched nothing, when the status byte so
    /// captured holds `mc_pending`. Otherwise takes vectors from the slot
    /// while the one observed is above the task priority `tpr`: each is
    /// swapped for 0 and handed to `dispatch` once the swap succeeded; a
    /// vector at or below `tpr` ends the pass and stays in the slot.
    /// After `PASS_STEP_LIMIT` swap attempts the pass ends even so.
    ///
    /// The log returned records the pass as a run of the slot model: the
    /// byte captured from the status flags, the vector first read, and the
    /// moves, where a value read that differs from what the pass last knew
    /// of the slot counts as a write by the hypervisor. The run's
    /// `dispatched` is the sequence of calls made to `dispatch`, so the
    /// laws of `model` hold of this call.
    pub fn process_pending_events<F: Fn(usize)>(&self, tpr: usize, dispatch: &F) -> (r: (
        Result<(), PassError>,
        Ghost<PassLog>,
    ))
        requires
            forall|v: usize| v < 256 && class_of(v as int) > tpr as int ==> dispatch.requires((v,)),
        ensures
            r.0 is Err <==> mc_pending_bit(r.1@.prior),
            r.0 is Err ==> r.0 == Err::<(), PassError>(PassError::MachineCheck) && r.1@.turns.len()
                == 0 && pass_run(r.1@, tpr).dispatched.len() == 0,
            r.0 is Ok ==> pass_run(r.1@, tpr).done || r.1@.hit_limit,
            r.1@.hit_limit ==> r.1@.turns.len() > PASS_STEP_LIMIT,
            forall|i: int|
                0 <= i < pass_run(r.1@, tpr).dispatched.len() ==> dispatchable(
                    #[trigger] pass_run(r.1@, tpr).dispatched[i],
                    tpr,
                ),
    {
        let prior = HVDoorbellFlags::from_bits(
            self.flags.fetch_and(!PASS_CLEAR_MASK, Ordering::Relaxed),
        );
        match check_pass_flags(prior) {
            Err(e) => {
                let ghost log = PassLog { prior: prior@, start: 0, turns: Seq::empty(), hit_limit: false };
                return (Err(e), Ghost(log));
            },
            Ok(()) => {},
        }
        let mut vector: u8 = self.vector.load(Ordering::Relaxed);
        let ghost start = vector;
        let ghost mut turns: Seq<Turn> = seq![Turn::Step];
        proof {
            lemma_slot_run_push(pass_start(start), Seq::empty(), Turn::Step, tpr);
            assert(Seq::<Turn>::empty().push(Turn::Step) =~= turns);
        }
        let mut steps: usize = 0;
        loop
            invariant
                forall|v: usize| v < 256 && class_of(v as int) > tpr as int ==> dispatch.requires((v,)),
                !mc_pending_bit(prior@),
                steps <= PASS_STEP_LIMIT,
                turns.len() >= steps + 1,
                slot_run(pass_start(start), turns, tpr).slot == vector,
                dispatchable(vector, tpr) ==> slot_run(pass_start(start), turns, tpr).seen == Some(
                    vector,
                ) && !slot_run(pass_start(start), turns, tpr).done,
                !dispatchable(vector, tpr) ==> slot_run(pass_start(start), turns, tpr).done,
            decreases PASS_STEP_LIMIT - steps,
        {
            let ghost g = slot_run(pass_start(start), turns, tpr);
            if steps >= PASS_STEP_LIMIT {
                let ghost log = PassLog { prior: prior@, start, turns, hit_limit: true };
                proof {
                    lemma_pass_accounts_for_every_vector(start, turns, tpr);
                }
                return (Ok(()), Ghost(log));
            }
            match slot_action(vector, tpr) {
                SlotAction::Leave => {
                    let ghost log = PassLog { prior: prior@, start, turns, hit_limit: false };
                    proof {
                        lemma_pass_accounts_for_every_vector(start, turns, tpr);
                    }
                    return (Ok(()), Ghost(log));
                },
                SlotAction::Consume(v) => {
                    match self.vector.compare_exchange_weak(v, 0, Ordering::Relaxed, Ordering::Relaxed) {
                        Ok(_) => {
                            proof {
                                lemma_slot_run_push(pass_start(start), turns, Turn::Step, tpr);
                                turns = turns.push(Turn::Step);
                            }
                            dispatch(v as usize);
                            vector = self.vector.load(Ordering::Relaxed);
                            proof {
                                if vector != 0 {
                                    lemma_slot_run_push(pass_start(start), turns, Turn::Post(vector), tpr);
                                    turns = turns.push(Turn::Post(vector));
                                }
                                lemma_slot_run_push(pass_start(start), turns, Turn::Step, tpr);
                                turns = turns.push(Turn::Step);
                            }
                        },
                        Err(seen) => {
                            proof {
                                if seen == v {
                                    lemma_slot_run_push(pass_start(start), turns, Turn::Spurious, tpr);
                                    turns = turns.push(Turn::Spurious);
                                } else {
                                    lemma_slot_run_push(pass_start(start), turns, Turn::Post(seen), tpr);
                                    turns = turns.push(Turn::Post(seen));
                                    lemma_slot_run_push(pass_start(start), turns, Turn::Step, tpr);
                                    turns = turns.push(Turn::Step);
                                }
                            }
                            vector = seen;
                        },
                    }
                },
            }
            steps = steps + 1;
        }
    }

    /// One pass from the interrupt-entry path, where interrupts are
    /// already masked: `push_nesting(true)` records a nesting level as if
    /// interrupts had been enabled before, the pass is made, and
    /// `pop_nesting` drops that level again, also when the pass meets
    /// `mc_pending`. Result and log are those of the pass.
    pub fn process_from_entry<F: Fn(usize), H: Fn(bool), P: Fn() -> isize>(
        &self,
        tpr: usize,
        dispatch: &F,
        push_nesting: &H,
        pop_nesting: &P,
    ) -> (r: (Result<(), PassError>, Ghost<PassLog>))
        requires
            forall|v: usize| v < 256 && class_of(v as int) > tpr as int ==> dispatch.requires((v,)),
            push_nesting.requires((true,)),
            pop_nesting.requires(()),
        ensures
            r.0 is Err <==> mc_pending_bit(r.1@.prior),
            r.0 is Err ==> r.0 == Err::<(), PassError>(PassError::MachineCheck) && r.1@.turns.len()
                == 0 && pass_run(r.1@, tpr).dispatched.len() == 0,
            r.0 is Ok ==> pass_run(r.1@, tpr).done || r.1@.hit_limit,
            r.1@.hit_limit ==> r.1@.turns.len() > PASS_STEP_LIMIT,
            forall|i: int|
                0 <= i < pass_run(r.1@, tpr).dispatched.len() ==> dispatchable(
                    #[trigger] pass_run(r.1@, tpr).dispatched[i],
                    tpr,
                ),
    {
        push_nesting(true);
        let r = self.process_pending_events(tpr, dispatch);
        let _ = pop_nesting();
        r
    }

    /// The priority gate on the page as it reads now: whether a drain pass
    /// is warranted for task priority `tpr`. The log returned holds the
    /// status byte and the vector read.
    pub fn events_to_process(&self, tpr: usize) -> (r: (bool, Ghost<(u8, u8)>))
        ensures
            r.0 == events_pending_spec(r.1@.0, r.1@.1, tpr),
    {
        let flags = HVDoorbellFlags::from_bits(self.flags.load(Ordering::Relaxed));
        let vector = self.vector.load(Ordering::Relaxed);
        (events_pending(flags, vector, tpr), Ghost((flags@, vector)))
    }

    /// Drains the page; interrupts must be enabled on entry.
    ///
    /// Each round checks `events_to_process`; when it is false,
    /// or after `DRAIN_ROUND_LIMIT` rounds, the drain gives `Ok`.
    /// Otherwise `mask` masks interrupts, one pass is made, `pop_nesting`
    /// drops the nesting level that masking pushed and returns the level
    /// left, and only when that level is zero does `unmask` enable
    /// interrupts at the hardware level, bypassing the nested enable path so
    /// that the drain is never entered from within itself. A pass that
    /// meets `mc_pending` ends the drain with `MachineCheck`, before the
    /// pop; a level other than zero ends it with `Nested`, before `unmask`.
    ///
    /// The log holds, for each round, the two bytes the priority check read, the log
    /// of the pass and the level that `pop_nesting` gave back.
    pub fn process_if_required<F: Fn(usize), M: Fn(), P: Fn() -> isize, U: Fn()>(
        &self,
        tpr: usize,
        dispatch: &F,
        mask: &M,
        pop_nesting: &P,
        unmask: &U,
    ) -> (r: (Result<(), DrainError>, Ghost<DrainLog>))
        requires
            forall|v: usize| v < 256 && class_of(v as int) > tpr as int ==> dispatch.requires((v,)),
            mask.requires(()),
            pop_nesting.requires(()),
            unmask.requires(()),
        ensures
            drain_rounds_ok(r.1@, tpr),
            forall|i: int| 0 <= i < r.1@.depths.len() ==> pop_nesting.ensures((), #[trigger] r.1@.depths[i]),
            r.0 is Ok ==> drain_finished(r.1@, tpr),
            r.0 == Err::<(), DrainError>(DrainError::MachineCheck) ==> r.1@.passes.len() >= 1
                && r.1@.gates.len() == r.1@.passes.len() && r.1@.depths.len() + 1 == r.1@.passes.len()
                && mc_pending_bit(r.1@.passes.last().prior),
            r.0 == Err::<(), DrainError>(DrainError::Nested) ==> r.1@.passes.len() >= 1
                && r.1@.gates.len() == r.1@.passes.len() && r.1@.depths.len() == r.1@.passes.len()
                && !mc_pending_bit(r.1@.passes.last().prior) && r.1@.depths.last() != 0,
            r.0 == Err::<(), DrainError>(DrainError::Nested) ==> exists|d: isize|
                d != 0 && pop_nesting.ensures((), d),
            (forall|d: isize| pop_nesting.ensures((), d) ==> d == 0) ==> r.0 != Err::<(), DrainError>(
                DrainError::Nested,
            ),
    {
        let mut rounds: usize = 0;
        let ghost mut log = DrainLog { gates: Seq::empty(), passes: Seq::empty(), depths: Seq::empty() };
        loop
            invariant
                forall|v: usize| v < 256 && class_of(v as int) > tpr as int ==> dispatch.requires((v,)),
                mask.requires(()),
                pop_nesting.requires(()),
                unmask.requires(()),
                rounds <= DRAIN_ROUND_LIMIT,
                log.passes.len() == rounds,
                log.gates.len() == rounds,
                log.depths.len() == rounds,
                drain_rounds_ok(log, tpr),
                forall|i: int| 0 <= i < log.passes.len() ==> !mc_pending_bit(#[trigger] log.passes[i].prior),
                forall|i: int| 0 <= i < log.depths.len() ==> #[trigger] log.depths[i] == 0,
                forall|i: int| 0 <= i < log.depths.len() ==> pop_nesting.ensures((), #[trigger] log.depths[i]),
            decreases DRAIN_ROUND_LIMIT - rounds,
        {
            if rounds >= DRAIN_ROUND_LIMIT {
                return (Ok(()), Ghost(log));
            }
            let (pending, Ghost(read)) = self.events_to_process(tpr);
            proof {
                log = DrainLog { gates: log.gates.push(read), ..log };
            }
            if !pending {
                return (Ok(()), Ghost(log));
            }
            mask();
            let (pass, Ghost(pass_log)) = self.process_pending_events(tpr, dispatch);
            proof {
                log = DrainLog { passes: log.passes.push(pass_log), ..log };
            }
            match pass {
                Err(PassError::MachineCheck) => {
                    return (Err(DrainError::MachineCheck), Ghost(log));
                },
                Ok(()) => {},
            }
            let depth = pop_nesting();
            proof {
                log = DrainLog { depths: log.depths.push(depth), ..log };
            }
            match check_nesting(depth) {
                Err(e) => {
                    return (Err(e), Ghost(log));
                },
                Ok(()) => {},
            }
            unmask();
            rounds = rounds + 1;
        }
    }

    /// Claims the hypervisor's "no EOI required" indication: true when bit
    /// 0 of the no-EOI byte was set and this call cleared it, leaving the
    /// other bits, so that an explicit EOI can be skipped; false, with the
    /// byte untouched, when the bit reads clear. A swap that fails is
    /// retried on the value it returned; after `EOI_CLAIM_LIMIT` failed
    /// swaps the claim is made by one atomic and-with-`!1`, whose prior
    /// value gives the answer, so the bit is never left set behind a false.
    ///
    /// The log returned records the call as a run of the no-EOI model from
    /// the byte first read: a value read that differs from what the call
    /// last knew counts as a write by the hypervisor, and the call ends with
    /// exactly one claim, so the laws of `model` hold of it.
    pub fn no_eoi_required(&self) -> (r: (bool, Ghost<EoiLog>))
        ensures
            r.1@.moves.len() > 0,
            r.1@.moves.last() == None::<u8>,
            forall|i: int| 0 <= i < r.1@.moves.len() - 1 ==> #[trigger] r.1@.moves[i] is Some,
            r.0 == eoi_claim(eoi_run(r.1@.start, r.1@.moves.drop_last()).byte).0,
            eoi_run(r.1@.start, r.1@.moves).claims == if r.0 { 1nat } else { 0nat },
    {
        let mut seen: u8 = self.no_eoi_required.load(Ordering::Relaxed);
        let ghost start = seen;
        let ghost mut moves: Seq<Option<u8>> = Seq::empty();
        let mut tries: usize = 0;
        loop
            invariant
                tries <= EOI_CLAIM_LIMIT,
                eoi_run(start, moves).byte == seen,
                eoi_run(start, moves).claims == 0,
                forall|i: int| 0 <= i < moves.len() ==> #[trigger] moves[i] is Some,
            decreases EOI_CLAIM_LIMIT - tries,
        {
            if tries >= EOI_CLAIM_LIMIT {
                let prior: u8 = self.no_eoi_required.fetch_and(0xfe, Ordering::Relaxed);
                proof {
                    if prior != seen {
                        lemma_eoi_run_push(start, moves, Some(prior));
                        moves = moves.push(Some(prior));
                    }
                    let before = moves;
                    lemma_eoi_run_push(start, moves, None);
                    moves = moves.push(None);
                    assert(moves.drop_last() =~= before);
                }
                let claimed = match no_eoi_action(prior) {
                    EoiAction::Required => false,
                    EoiAction::Clear(_) => true,
                };
                return (claimed, Ghost(EoiLog { start, moves }));
            }
            match no_eoi_action(seen) {
                EoiAction::Required => {
                    proof {
                        let before = moves;
                        lemma_eoi_run_push(start, moves, None);
                        moves = moves.push(None);
                        assert(moves.drop_last() =~= before);
                    }
                    return (false, Ghost(EoiLog { start, moves }));
                },
                EoiAction::Clear(cleared) => {
                    match self.no_eoi_required.compare_exchange_weak(
                        seen,
                        cleared,
                        Ordering::Relaxed,
                        Ordering::Relaxed,
                    ) {
                        Ok(_) => {
                            proof {
                                let before = moves;
                                lemma_eoi_run_push(start, moves, None);
                                moves = moves.push(None);
                                assert(moves.drop_last() =~= before);
                            }
                            return (true, Ghost(EoiLog { start, moves }));
                        },
                        Err(now) => {
                            proof {
                                if now != seen {
                                    lemma_eoi_run_push(start, moves, Some(now));
                                    moves = moves.push(Some(now));
                                }
                            }
                            seen = now;
                        },
                    }
                },
            }
            tries = tries + 1;
        }
    }
}

/// The doorbell page of the current processor, out of what per-processor
/// state holds; the page must have been set up.
pub fn current_hv_doorbell<'a>(configured: Option<&'a HVDoorbell>) -> (r: &'a HVDoorbell)
    requires
        configured.is_some(),
    ensures
        r == configured.unwrap(),
{
    configured.unwrap()
}

} // verus!

verus! {

/// Why setting up the doorbell page failed.
#[derive(Debug, PartialEq, Eq)]
pub enum DoorbellSetupError<E> {
    /// No zeroed page could be had.
    Alloc,
    /// The hypervisor refused the registration, with this error.
    Registration(E),
}

/// Sets up the doorbell page: `allocate` hands back a zeroed shared page
/// and its physical address, or nothing; `register` gives that address to
/// the hypervisor. The page is returned once registered. A failed
/// allocation gives `Alloc` and registers nothing; a refused registration
/// gives its error. Neither is retried.
pub fn allocate_hv_doorbell_page<Pg, E, A: FnOnce() -> Option<(Pg, u64)>, R: FnOnce(u64) -> Result<(), E>>(
    allocate: A,
    register: R,
) -> (r: Result<Pg, DoorbellSetupError<E>>)
    requires
        allocate.requires(()),
        forall|pa: u64| register.requires((pa,)),
    ensures
        r is Ok ==> exists|pa: u64|
            #[trigger] register.ensures((pa,), Ok(())) && allocate.ensures((), Some((r->Ok_0, pa))),
        r == Err::<Pg, DoorbellSetupError<E>>(DoorbellSetupError::Alloc) ==> allocate.ensures(
            (),
            None,
        ),
        r is Err && r->Err_0 is Registration ==> exists|page: Pg, pa: u64|
            allocate.ensures((), Some((page, pa))) && register.ensures(
                (pa,),
                Err(r->Err_0->Registration_0),
            ),
{
    let got = allocate();
    match got {
        None => Err(DoorbellSetupError::Alloc),
        Some(pair) => {
            let (page, pa) = pair;
            let reg = register(pa);
            match reg {
                Ok(u) => {
                    assert(u == ());
                    assert(register.ensures((pa,), Ok(())) && allocate.ensures((), Some((page, pa))));
                    Ok(page)
                },
                Err(e) => Err(DoorbellSetupError::Registration(e)),
            }
        },
    }
}

} // verus!
