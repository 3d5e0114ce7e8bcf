use fspy::channel::gate::{EnterError, Gate, COUNT_MASK, CLOSED};

#[test]
fn enter_and_drop_balance_the_count() {
    let mut gate = Gate::new(0);

    let first = gate.enter().unwrap();
    let second = gate.enter().unwrap();
    assert_eq!(gate.word() & COUNT_MASK, 2);

    gate.release(first);
    gate.release(second);
    assert_eq!(gate.close(), 0);
}

#[test]
fn enter_is_refused_after_close() {
    let mut gate = Gate::new(0);

    assert_eq!(gate.close(), 0);
    assert_eq!(gate.enter().unwrap_err(), EnterError::Closed);
    // Closing again is harmless and still reports no writer in flight.
    assert_eq!(gate.close(), 0);
}

#[test]
fn close_reports_a_live_guard() {
    let mut gate = Gate::new(0);

    let guard = gate.enter().unwrap();
    assert_eq!(gate.close(), 1);
    gate.release(guard);
    // The count drains even after the close, but this gate stays closed.
    assert_eq!(gate.close(), 0);
    assert_eq!(gate.enter().unwrap_err(), EnterError::Closed);
}

#[test]
fn leaked_guard_keeps_the_count_forever() {
    let mut gate = Gate::new(0);

    std::mem::forget(gate.enter().unwrap());

    assert_eq!(gate.close(), 1);
    assert_eq!(gate.close(), 1);
}

#[test]
fn enter_refuses_a_saturated_count() {
    let mut gate = Gate::new(COUNT_MASK);

    assert_eq!(gate.enter().unwrap_err(), EnterError::Saturated);
}

#[test]
fn a_refused_enter_leaves_the_word() {
    let mut gate = Gate::new(CLOSED | 3);
    assert_eq!(gate.enter().unwrap_err(), EnterError::Closed);
    assert_eq!(gate.word(), CLOSED | 3);
}

#[test]
fn enter_then_release_gives_the_word_back() {
    let mut gate = Gate::new(41);
    let guard = gate.enter().unwrap();
    assert_eq!(gate.word(), 42);
    gate.release(guard);
    assert_eq!(gate.word(), 41);
}
