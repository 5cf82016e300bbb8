use hv_doorbell::flags::{HVDoorbellFlags, HVExtIntStatus};
use hv_doorbell::protocol::{
    check_nesting, check_pass_flags, events_pending, no_eoi_action, slot_action, tpr_from_vector,
    DrainError, EoiAction, PassError, SlotAction,
};

#[test]
fn flag_builders_set_exact_bits() {
    let f = HVDoorbellFlags::new().with_no_further_signal(true).with_nmi_pending(true);
    assert_eq!(f.into_bits(), 0x81);
    assert!(f.no_further_signal());
    assert!(f.nmi_pending());
    assert!(!f.mc_pending());
    let g = HVDoorbellFlags::from_bits(0xff).with_mc_pending(false).with_nmi_pending(false);
    assert_eq!(g.into_bits(), 0xfc);
    let h = g.with_no_further_signal(false).with_mc_pending(true);
    assert_eq!(h.into_bits(), 0x7e);
}

#[test]
fn ext_status_fields() {
    let s = HVExtIntStatus::from_bits(0x8800_4731);
    assert_eq!(s.pending_vector(), 0x31);
    assert!(s.nmi_pending());
    assert!(s.mc_pending());
    assert!(s.level_sensitive());
    assert!(s.multiple_vectors());
    assert!(s.ipi_requested());
    assert!(s.vector_31());
    let z = HVExtIntStatus::new();
    assert_eq!(z.into_bits(), 0);
    assert!(!z.nmi_pending() && !z.vector_31());
    assert_eq!(HVExtIntStatus::from_bits(0x0000_0200).pending_vector(), 0);
    assert!(!HVExtIntStatus::from_bits(0x0000_0200).nmi_pending());
}

#[test]
fn priority_class_of_vector() {
    assert_eq!(tpr_from_vector(0x31), 3);
    assert_eq!(tpr_from_vector(0x0f), 0);
    assert_eq!(tpr_from_vector(0xff), 15);
}

#[test]
fn gate_on_values() {
    let none = HVDoorbellFlags::new();
    let signalled = HVDoorbellFlags::new().with_no_further_signal(true);
    assert!(events_pending(signalled, 0, 15));
    assert!(!events_pending(none, 0, 0));
    assert!(events_pending(none, 0x10, 0));
    assert!(!events_pending(none, 0x21, 4));
    assert!(!events_pending(none, 0x4f, 4));
    assert!(events_pending(none, 0x50, 4));
}

#[test]
fn slot_actions() {
    assert_eq!(slot_action(0x31, 0), SlotAction::Consume(0x31));
    assert_eq!(slot_action(0x21, 4), SlotAction::Leave);
    assert_eq!(slot_action(0, 0), SlotAction::Leave);
}

#[test]
fn eoi_actions() {
    assert_eq!(no_eoi_action(0), EoiAction::Required);
    assert_eq!(no_eoi_action(0x02), EoiAction::Required);
    assert_eq!(no_eoi_action(0x01), EoiAction::Clear(0));
    assert_eq!(no_eoi_action(0x83), EoiAction::Clear(0x82));
}

#[test]
fn pass_flag_check() {
    assert_eq!(check_pass_flags(HVDoorbellFlags::from_bits(0x02)), Err(PassError::MachineCheck));
    assert_eq!(check_pass_flags(HVDoorbellFlags::from_bits(0xfd)), Ok(()));
}

#[test]
fn nesting_check() {
    assert_eq!(check_nesting(0), Ok(()));
    assert_eq!(check_nesting(1), Err(DrainError::Nested));
    assert_eq!(check_nesting(-1), Err(DrainError::Nested));
}
