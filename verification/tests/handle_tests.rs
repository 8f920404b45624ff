//! The handle ownership protocol: pinned addresses and exactly-once
//! teardown.

use cppbind::handle::{Handle, HandleState};

#[test]
fn heap_handle_address_is_pinned_until_teardown() {
    let mut h = Handle::reserve(0x7000);
    assert_eq!(h.current_state(), HandleState::Uninitialized);
    assert_eq!(h.storage_address(), 0x7000);
    h.construct();
    assert_eq!(h.current_state(), HandleState::Constructed);
    assert_eq!(h.storage_address(), 0x7000);
    assert_eq!(h.times_destroyed(), 0);
    h.teardown();
    assert_eq!(h.current_state(), HandleState::Destroyed);
    assert_eq!(h.storage_address(), 0x7000);
    assert_eq!(h.times_destroyed(), 1);
}

#[test]
fn destructor_never_runs_without_construction() {
    let h = Handle::reserve(0x2000);
    assert_eq!(h.current_state(), HandleState::Uninitialized);
    assert_eq!(h.times_destroyed(), 0);
}

#[test]
fn construction_alone_never_destroys() {
    let mut h = Handle::reserve(16);
    h.construct();
    assert_eq!(h.times_destroyed(), 0);
}
