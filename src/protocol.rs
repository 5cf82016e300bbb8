//! The decisions of the doorbell protocol on plain values: the priority
//! gate, the start of a pass, what a pass does with an observed vector,
//! the no-EOI claim and the nesting check of the drain loop.
use vstd::prelude::*;
use crate::flags::{HVDoorbellFlags, no_further_signal_bit, mc_pending_bit};

verus! {

/// The priority class of a vector: its top four bits.
pub open spec fn class_of(v: int) -> int {
    v / 16
}

/// A vector can be delivered when its class is above the task-priority level.
pub open spec fn dispatchable(v: u8, tpr: usize) -> bool {
    class_of(v as int) > tpr as int
}

/// Whether a drain pass is warranted: the hypervisor asked for one, or the
/// pending vector is at or above `(tpr + 1) << 4`.
pub open spec fn events_pending_spec(flags: u8, vector: u8, tpr: usize) -> bool {
    no_further_signal_bit(flags) || vector as int >= (tpr as int + 1) * 16
}

/// The status bits that a pass clears as it starts: `no_further_signal`
/// and `nmi_pending`.
pub const PASS_CLEAR_MASK: u8 = 0x81;

/// Why a pass stopped without finishing.
#[derive(Clone, Copy, Debug, PartialEq, Eq)]
pub enum PassError {
    /// The status byte held `mc_pending`: the condition cannot be handled.
    MachineCheck,
}

/// What a pass does after observing the vector slot.
#[derive(Clone, Copy, Debug, PartialEq, Eq)]
pub enum SlotAction {
    /// The vector is at or below the task priority: stop, leave it in place.
    Leave,
    /// Try to swap the observed vector for 0 and, on success, dispatch it.
    Consume(u8),
}

/// What the no-EOI query does after observing its byte.
#[derive(Clone, Copy, Debug, PartialEq, Eq)]
pub enum EoiAction {
    /// Bit 0 is clear: an explicit EOI is required.
    Required,
    /// Bit 0 is set: try to swap the observed byte for this value.
    Clear(u8),
}

/// The drain loop stopped on a fatal condition.
#[derive(Clone, Copy, Debug, PartialEq, Eq)]
pub enum DrainError {
    /// A pass met `mc_pending`.
    MachineCheck,
    /// Interrupt nesting was not back to zero after a pass: the drain loop
    /// was entered from within itself.
    Nested,
}

/// The priority class of a vector number.
pub fn tpr_from_vector(vector: usize) -> (r: usize)
    ensures
        r as int == class_of(vector as int),
{
    proof {
        assert(vector >> 4 == vector / 16) by (bit_vector);
    }
    vector >> 4
}

/// The priority gate on values read from the page.
pub fn events_pending(flags: HVDoorbellFlags, vector: u8, tpr: usize) -> (r: bool)
    ensures
        r == events_pending_spec(flags@, vector, tpr),
        r == (no_further_signal_bit(flags@) || dispatchable(vector, tpr)),
{
    if flags.no_further_signal() {
        true
    } else {
        tpr_from_vector(vector as usize) > tpr
    }
}

/// Whether a pass may go on, given the status byte it captured while
/// clearing it: a pending machine check ends it.
pub fn check_pass_flags(prior: HVDoorbellFlags) -> (r: Result<(), PassError>)
    ensures
        r is Err <==> mc_pending_bit(prior@),
        r is Err ==> r == Err::<(), PassError>(PassError::MachineCheck),
{
    if prior.mc_pending() {
        Err(PassError::MachineCheck)
    } else {
        Ok(())
    }
}

/// What a pass does with the vector it observed.
pub fn slot_action(observed: u8, tpr: usize) -> (r: SlotAction)
    ensures
        r == (if dispatchable(observed, tpr) { SlotAction::Consume(observed) } else { SlotAction::Leave }),
{
    if tpr_from_vector(observed as usize) > tpr {
        SlotAction::Consume(observed)
    } else {
        SlotAction::Leave
    }
}

/// The no-EOI claim on an observed byte, as a pair of the answer and the
/// byte left behind.
pub open spec fn eoi_claim(b: u8) -> (bool, u8) {
    if b & 1 == 0 {
        (false, b)
    } else {
        (true, b & 0xfe)
    }
}

/// What the no-EOI query does with the byte it observed.
pub fn no_eoi_action(observed: u8) -> (r: EoiAction)
    ensures
        r == (if eoi_claim(observed).0 { EoiAction::Clear(eoi_claim(observed).1) } else { EoiAction::Required }),
{
    if observed & 1 == 0 {
        EoiAction::Required
    } else {
        EoiAction::Clear(observed & 0xfe)
    }
}

/// The nesting check of the drain loop: the depth popped after a pass must
/// be zero.
pub fn check_nesting(depth: isize) -> (r: Result<(), DrainError>)
    ensures
        r is Ok <==> depth == 0,
        r is Err ==> r == Err::<(), DrainError>(DrainError::Nested),
{
    if depth == 0 {
        Ok(())
    } else {
        Err(DrainError::Nested)
    }
}

} // verus!
