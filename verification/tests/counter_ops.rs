//! Tests for the bundled per-user counter.

use stake::counter::create;
use stake::counter::increase;

#[test]
fn create_starts_at_zero() {
    let c = create();
    assert_eq!(c.data, 0);
}

#[test]
fn increase_steps_by_one() {
    let mut c = create();
    increase(&mut c);
    increase(&mut c);
    increase(&mut c);
    assert_eq!(c.data, 3);
}
