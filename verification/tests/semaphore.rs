//! Unit tests of the semaphore's counting discipline.

use lamnet::simple_semaphore::Semaphore;

#[test]
fn new_holds_the_given_permits() {
    let s = Semaphore::new(3);
    assert_eq!(s.count, 3);
}

#[test]
fn wait_takes_a_permit_and_signal_returns_one() {
    let mut s = Semaphore::new(1);
    s.wait();
    assert_eq!(s.count, 0);
    s.signal();
    s.signal();
    assert_eq!(s.count, 2);
    s.wait();
    s.wait();
    assert_eq!(s.count, 0);
}

#[test]
fn default_is_empty() {
    let s = Semaphore::default();
    assert_eq!(s.count, 0);
}
