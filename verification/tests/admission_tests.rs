use rustyproxy_srv::admission::{AdmissionControl, Decision, GLOBAL_CAP};

#[test]
fn second_attempt_from_same_address_is_refused_then_readmitted() {
    let mut ctl = AdmissionControl::new();
    assert_eq!(ctl.connect(7), Decision::Admitted);
    // A second concurrent attempt from the same address is refused while
    // the first channel is open, and the first stays usable.
    assert_eq!(ctl.connect(7), Decision::Rejected);
    assert_eq!(ctl.active_count(), 1);
    // After the first closes, a new attempt from that address is admitted.
    assert_eq!(ctl.disconnect(7), None);
    assert_eq!(ctl.active_count(), 0);
    assert_eq!(ctl.connect(7), Decision::Admitted);
}

#[test]
fn eleventh_attempt_waits_for_a_free_slot() {
    let mut ctl = AdmissionControl::new();
    for key in 0..GLOBAL_CAP as u128 {
        assert_eq!(ctl.connect(key), Decision::Admitted);
    }
    // The attempt beyond the global cap, from a fresh address, is not
    // rejected outright: it waits.
    assert_eq!(ctl.connect(100), Decision::Deferred);
    assert_eq!(ctl.active_count(), GLOBAL_CAP);
    assert_eq!(ctl.pending_count(), 1);
    // Once one of the first ten closes, the waiting address is admitted.
    assert_eq!(ctl.disconnect(3), Some(100));
    assert_eq!(ctl.active_count(), GLOBAL_CAP);
    assert_eq!(ctl.pending_count(), 0);
    // The promoted address now holds its one channel.
    assert_eq!(ctl.connect(100), Decision::Rejected);
}

#[test]
fn waiting_attempt_is_also_counted_for_its_address() {
    let mut ctl = AdmissionControl::new();
    for key in 0..GLOBAL_CAP as u128 {
        assert_eq!(ctl.connect(key), Decision::Admitted);
    }
    assert_eq!(ctl.connect(55), Decision::Deferred);
    // Another attempt from the waiting address is refused.
    assert_eq!(ctl.connect(55), Decision::Rejected);
    // A waiting address whose connection goes away is simply forgotten.
    assert_eq!(ctl.disconnect(55), None);
    assert_eq!(ctl.pending_count(), 0);
}

#[test]
fn disconnect_of_unknown_address_changes_nothing() {
    let mut ctl = AdmissionControl::new();
    assert_eq!(ctl.connect(1), Decision::Admitted);
    assert_eq!(ctl.disconnect(2), None);
    assert_eq!(ctl.active_count(), 1);
}

#[test]
fn waiting_addresses_are_admitted_oldest_first() {
    let mut ctl = AdmissionControl::new();
    for key in 0..GLOBAL_CAP as u128 {
        assert_eq!(ctl.connect(key), Decision::Admitted);
    }
    assert_eq!(ctl.connect(201), Decision::Deferred);
    assert_eq!(ctl.connect(202), Decision::Deferred);
    assert_eq!(ctl.disconnect(0), Some(201));
    assert_eq!(ctl.disconnect(1), Some(202));
    assert_eq!(ctl.disconnect(2), None);
}
