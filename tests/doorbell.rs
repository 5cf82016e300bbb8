use std::cell::RefCell;
use std::sync::atomic::Ordering;

use hv_doorbell::doorbell::{
    allocate_hv_doorbell_page, current_hv_doorbell, DoorbellSetupError, HVDoorbell,
};
use hv_doorbell::protocol::{DrainError, PassError};

fn drain(page: &HVDoorbell, tpr: usize, depth_left: isize) -> (Result<(), DrainError>, Vec<usize>) {
    let seen = RefCell::new(Vec::new());
    let dispatch = |v: usize| seen.borrow_mut().push(v);
    let mask = || {};
    let pop = || depth_left;
    let unmask = || {};
    let (r, _) = page.process_if_required(tpr, &dispatch, &mask, &pop, &unmask);
    (r, seen.into_inner())
}

fn pass(page: &HVDoorbell, tpr: usize) -> (Result<(), PassError>, Vec<usize>) {
    let seen = RefCell::new(Vec::new());
    let dispatch = |v: usize| seen.borrow_mut().push(v);
    let (r, _) = page.process_pending_events(tpr, &dispatch);
    (r, seen.into_inner())
}

#[test]
fn drain_dispatches_signalled_vector_once() {
    let page = HVDoorbell::new();
    page.vector.store(0x31, Ordering::Relaxed);
    page.flags.store(0x80, Ordering::Relaxed);
    let (r, seen) = drain(&page, 0, 0);
    assert_eq!(r, Ok(()));
    assert_eq!(seen, vec![0x31]);
    assert_eq!(page.vector.load(Ordering::Relaxed), 0);
    assert_eq!(page.flags.load(Ordering::Relaxed), 0);
    assert!(!page.events_to_process(0).0);
}

#[test]
fn low_priority_vector_left_in_slot() {
    let page = HVDoorbell::new();
    page.vector.store(0x21, Ordering::Relaxed);
    let (r, seen) = drain(&page, 4, 0);
    assert_eq!(r, Ok(()));
    assert!(seen.is_empty());
    assert_eq!(page.vector.load(Ordering::Relaxed), 0x21);
    let (r, seen) = pass(&page, 4);
    assert_eq!(r, Ok(()));
    assert!(seen.is_empty());
    assert_eq!(page.vector.load(Ordering::Relaxed), 0x21);
}

#[test]
fn vector_at_priority_level_is_not_taken() {
    let page = HVDoorbell::new();
    page.vector.store(0x4f, Ordering::Relaxed);
    let (_, seen) = pass(&page, 4);
    assert!(seen.is_empty());
    assert_eq!(page.vector.load(Ordering::Relaxed), 0x4f);
    page.vector.store(0x50, Ordering::Relaxed);
    let (_, seen) = pass(&page, 4);
    assert_eq!(seen, vec![0x50]);
    assert_eq!(page.vector.load(Ordering::Relaxed), 0);
}

#[test]
fn no_further_signal_makes_gate_true() {
    let page = HVDoorbell::new();
    assert!(!page.events_to_process(0).0);
    page.flags.store(0x80, Ordering::Relaxed);
    assert!(page.events_to_process(0).0);
    assert!(page.events_to_process(15).0);
    let (r, seen) = pass(&page, 0);
    assert_eq!(r, Ok(()));
    assert!(seen.is_empty());
    assert!(!page.events_to_process(0).0);
}

#[test]
fn gate_threshold_follows_priority() {
    let page = HVDoorbell::new();
    page.vector.store(0x30, Ordering::Relaxed);
    assert!(page.events_to_process(2).0);
    assert!(!page.events_to_process(3).0);
    page.vector.store(0x2f, Ordering::Relaxed);
    assert!(!page.events_to_process(2).0);
    assert!(page.events_to_process(1).0);
}

#[test]
fn second_pass_is_idle() {
    let page = HVDoorbell::new();
    page.vector.store(0x41, Ordering::Relaxed);
    page.flags.store(0x80, Ordering::Relaxed);
    let (_, first) = drain(&page, 1, 0);
    assert_eq!(first, vec![0x41]);
    let (r, second) = pass(&page, 1);
    assert_eq!(r, Ok(()));
    assert!(second.is_empty());
    let (r, third) = drain(&page, 1, 0);
    assert_eq!(r, Ok(()));
    assert!(third.is_empty());
    assert_eq!(page.vector.load(Ordering::Relaxed), 0);
}

#[test]
fn pass_clears_nmi_and_keeps_reserved_bits() {
    let page = HVDoorbell::new();
    page.flags.store(0xfd, Ordering::Relaxed);
    let (r, _) = pass(&page, 0);
    assert_eq!(r, Ok(()));
    assert_eq!(page.flags.load(Ordering::Relaxed), 0x7c);
}

#[test]
fn machine_check_aborts_pass() {
    let page = HVDoorbell::new();
    page.vector.store(0x31, Ordering::Relaxed);
    page.flags.store(0x82, Ordering::Relaxed);
    let (r, seen) = pass(&page, 0);
    assert_eq!(r, Err(PassError::MachineCheck));
    assert!(seen.is_empty());
    assert_eq!(page.vector.load(Ordering::Relaxed), 0x31);
}

#[test]
fn machine_check_aborts_drain() {
    let page = HVDoorbell::new();
    page.vector.store(0x31, Ordering::Relaxed);
    page.flags.store(0x82, Ordering::Relaxed);
    let (r, seen) = drain(&page, 0, 0);
    assert_eq!(r, Err(DrainError::MachineCheck));
    assert!(seen.is_empty());
}

#[test]
fn nested_drain_is_fatal() {
    let page = HVDoorbell::new();
    page.vector.store(0x31, Ordering::Relaxed);
    let (r, seen) = drain(&page, 0, 1);
    assert_eq!(r, Err(DrainError::Nested));
    assert_eq!(seen, vec![0x31]);
}

#[test]
fn drain_without_work_runs_no_pass() {
    let page = HVDoorbell::new();
    let (r, seen) = drain(&page, 0, 1);
    assert_eq!(r, Ok(()));
    assert!(seen.is_empty());
}

#[test]
fn no_eoi_claimed_once() {
    let page = HVDoorbell::new();
    assert!(!page.no_eoi_required().0);
    page.no_eoi_required.store(1, Ordering::Relaxed);
    assert!(page.no_eoi_required().0);
    assert_eq!(page.no_eoi_required.load(Ordering::Relaxed), 0);
    assert!(!page.no_eoi_required().0);
    page.no_eoi_required.store(1, Ordering::Relaxed);
    assert!(page.no_eoi_required().0);
    assert!(!page.no_eoi_required().0);
}

#[test]
fn no_eoi_keeps_other_bits() {
    let page = HVDoorbell::new();
    page.no_eoi_required.store(0x03, Ordering::Relaxed);
    assert!(page.no_eoi_required().0);
    assert_eq!(page.no_eoi_required.load(Ordering::Relaxed), 0x02);
    assert!(!page.no_eoi_required().0);
    assert_eq!(page.no_eoi_required.load(Ordering::Relaxed), 0x02);
}

#[test]
fn setup_registers_page_address() {
    let registered = RefCell::new(None);
    let r = allocate_hv_doorbell_page(
        || Some((7u32, 0x1000u64)),
        |pa: u64| -> Result<(), u8> {
            *registered.borrow_mut() = Some(pa);
            Ok(())
        },
    );
    assert_eq!(r, Ok(7u32));
    assert_eq!(*registered.borrow(), Some(0x1000));
}

#[test]
fn setup_reports_allocation_failure() {
    let called = RefCell::new(false);
    let r = allocate_hv_doorbell_page(
        || -> Option<(u32, u64)> { None },
        |_pa: u64| -> Result<(), u8> {
            *called.borrow_mut() = true;
            Ok(())
        },
    );
    assert_eq!(r, Err(DoorbellSetupError::Alloc));
    assert!(!*called.borrow());
}

#[test]
fn setup_propagates_registration_error() {
    let r = allocate_hv_doorbell_page(|| Some((7u32, 0x2000u64)), |_pa: u64| -> Result<(), u8> { Err(9) });
    assert_eq!(r, Err(DoorbellSetupError::Registration(9)));
}

#[test]
fn current_page_is_the_configured_one() {
    let page = HVDoorbell::new();
    let got = current_hv_doorbell(Some(&page));
    assert!(std::ptr::eq(got, &page));
}

#[test]
fn new_page_is_zeroed() {
    let page = HVDoorbell::new();
    assert_eq!(page.vector.load(Ordering::Relaxed), 0);
    assert_eq!(page.flags.load(Ordering::Relaxed), 0);
    assert_eq!(page.no_eoi_required.load(Ordering::Relaxed), 0);
    assert_eq!(page.per_vmpl_events.load(Ordering::Relaxed), 0);
    for info in page.per_vmpl.iter() {
        assert_eq!(info.status.load(Ordering::Relaxed), 0);
        assert!(info.irr.iter().all(|w| w.load(Ordering::Relaxed) == 0));
        assert!(info.isr.iter().all(|w| w.load(Ordering::Relaxed) == 0));
    }
}

#[test]
fn vectors_posted_during_pass_are_each_dispatched_once() {
    let page = HVDoorbell::new();
    page.vector.store(0x31, Ordering::Relaxed);
    page.flags.store(0x80, Ordering::Relaxed);
    let seen = RefCell::new(Vec::new());
    // The hypervisor posts a new vector while each of the first two is
    // being handled, then a low one the pass must leave.
    let dispatch = |v: usize| {
        seen.borrow_mut().push(v);
        match v {
            0x31 => page.vector.store(0x52, Ordering::Relaxed),
            0x52 => page.vector.store(0x61, Ordering::Relaxed),
            _ => page.vector.store(0x11, Ordering::Relaxed),
        }
    };
    let (r, _) = page.process_pending_events(1, &dispatch);
    assert_eq!(r, Ok(()));
    assert_eq!(seen.into_inner(), vec![0x31, 0x52, 0x61]);
    assert_eq!(page.vector.load(Ordering::Relaxed), 0x11);
}

#[test]
fn drain_calls_collaborators_in_order() {
    let page = HVDoorbell::new();
    page.vector.store(0x31, Ordering::Relaxed);
    page.flags.store(0x80, Ordering::Relaxed);
    let calls = RefCell::new(Vec::new());
    let dispatch = |v: usize| calls.borrow_mut().push(format!("dispatch {:#x}", v));
    let mask = || calls.borrow_mut().push("mask".to_string());
    let pop = || {
        calls.borrow_mut().push("pop".to_string());
        0
    };
    let unmask = || calls.borrow_mut().push("unmask".to_string());
    let (r, _) = page.process_if_required(0, &dispatch, &mask, &pop, &unmask);
    assert_eq!(r, Ok(()));
    assert_eq!(calls.into_inner(), vec!["mask", "dispatch 0x31", "pop", "unmask"]);
}

#[test]
fn nested_drain_does_not_unmask() {
    let page = HVDoorbell::new();
    page.vector.store(0x31, Ordering::Relaxed);
    let unmasked = RefCell::new(0u32);
    let dispatch = |_v: usize| {};
    let mask = || {};
    let pop = || 2isize;
    let unmask = || *unmasked.borrow_mut() += 1;
    let (r, _) = page.process_if_required(0, &dispatch, &mask, &pop, &unmask);
    assert_eq!(r, Err(DrainError::Nested));
    assert_eq!(*unmasked.borrow(), 0);
}

#[test]
fn drain_without_work_calls_nothing() {
    let page = HVDoorbell::new();
    page.vector.store(0x21, Ordering::Relaxed);
    let calls = RefCell::new(0u32);
    let dispatch = |_v: usize| *calls.borrow_mut() += 1;
    let mask = || *calls.borrow_mut() += 1;
    let pop = || {
        *calls.borrow_mut() += 1;
        0
    };
    let unmask = || *calls.borrow_mut() += 1;
    let (r, _) = page.process_if_required(4, &dispatch, &mask, &pop, &unmask);
    assert_eq!(r, Ok(()));
    assert_eq!(*calls.borrow(), 0);
}

#[test]
fn entry_pass_brackets_nesting() {
    let page = HVDoorbell::new();
    page.vector.store(0x31, Ordering::Relaxed);
    let calls = RefCell::new(Vec::new());
    let dispatch = |v: usize| calls.borrow_mut().push(format!("dispatch {:#x}", v));
    let push = |was_enabled: bool| calls.borrow_mut().push(format!("push {}", was_enabled));
    let pop = || {
        calls.borrow_mut().push("pop".to_string());
        0
    };
    let (r, _) = page.process_from_entry(0, &dispatch, &push, &pop);
    assert_eq!(r, Ok(()));
    assert_eq!(calls.into_inner(), vec!["push true", "dispatch 0x31", "pop"]);
    assert_eq!(page.vector.load(Ordering::Relaxed), 0);
}
