use core::cmp::Ordering;

use rads::order::vector_clock::VectorClock;
use rads::order::LogicalClock;

#[test]
fn partial_ord() {
    let e1 = VectorClock::new(0, 2);
    assert_eq!(e1.partial_cmp(&e1), Some(Ordering::Equal));
    let e2 = e1.extend();
    assert_eq!(e1.partial_cmp(&e2), Some(Ordering::Less));
    assert_eq!(e2.partial_cmp(&e2), Some(Ordering::Equal));

    let f1 = VectorClock::new(1, 2);
    assert_eq!(e1.partial_cmp(&f1), None);
    assert_eq!(e2.partial_cmp(&f1), None);
    assert_eq!(f1.partial_cmp(&f1), Some(Ordering::Equal));
    let f2 = f1.merge(&e1);
    assert_eq!(e1.partial_cmp(&f2), Some(Ordering::Less));
    assert_eq!(e2.partial_cmp(&f2), None);
    assert_eq!(f1.partial_cmp(&f2), Some(Ordering::Less));
    assert_eq!(f2.partial_cmp(&f2), Some(Ordering::Equal));
}

#[test]
fn extend_strictly_follows() {
    let a = VectorClock::new(1, 3).extend().merge(&VectorClock::new(0, 3));
    let b = a.extend();
    assert_eq!(a.partial_cmp(&b), Some(Ordering::Less));
    assert!(a < b);
}

#[test]
fn genesis_clocks_incomparable() {
    let g0 = VectorClock::new(0, 2);
    let g1 = VectorClock::new(1, 2);
    assert_eq!(g0.partial_cmp(&g1), None);
    assert_eq!(g1.partial_cmp(&g0), None);
}

#[test]
fn merge_follows_received() {
    let m = VectorClock::new(0, 2).extend().extend();
    let local = VectorClock::new(1, 2);
    let post = local.merge(&m);
    assert_eq!(m.partial_cmp(&post), Some(Ordering::Less));
    assert_eq!(local.partial_cmp(&post), Some(Ordering::Less));
}

#[test]
fn merge_takes_componentwise_maximum() {
    let e1 = VectorClock::new(0, 2); // [1, 0]
    let f1 = VectorClock::new(1, 2); // [0, 1]
    let f2 = f1.merge(&e1); // componentwise maximum, then the owner steps
    assert_eq!(f2.dim(), 2);
    assert_eq!(f2.counter(0), 1);
    assert_eq!(f2.counter(1), 2);

    let e2 = e1.extend(); // [2, 0]
    assert_eq!(e2.counter(0), 2);
    assert_eq!(e2.counter(1), 0);
}

#[test]
fn chain_of_sends() {
    // p0 executes one local step, then sends to p1.
    let p0_local = VectorClock::new(0, 3).extend();
    let p0_send = p0_local.extend();
    // p1 receives, executes one local step, then sends to p2.
    let p1_recv = VectorClock::new(1, 3).merge(&p0_send);
    let p1_local = p1_recv.extend();
    let p1_send = p1_local.extend();
    // p2 receives.
    let p2_final = VectorClock::new(2, 3).merge(&p1_send);

    assert_eq!(p0_send.partial_cmp(&p2_final), Some(Ordering::Less));
    assert_eq!(p1_send.partial_cmp(&p2_final), Some(Ordering::Less));
    assert!(p0_send < p2_final && p1_send < p2_final);
}
