use std::sync::atomic::{AtomicI32, Ordering};

use rads::sync::lamports_bakery::{Bakery, BakeryN, FREE};
use rads::sync::peterson::Peterson;
use rads::sync::{NoStarveMutex, WantGuard};

const N_THREADS: i32 = 4;
const BAKERY_WORK: i32 = 1_000_000 / N_THREADS;
const PETERSON_WORK: i32 = 10_000_000 / 2;

#[derive(Default)]
struct TestData(AtomicI32, AtomicI32);

impl TestData {
    fn add_then_sub(&self) {
        let i = self.0.load(Ordering::Relaxed);
        let d = self.1.load(Ordering::Relaxed);
        self.0.store(i + 1, Ordering::Relaxed);
        self.1.store(d - 1, Ordering::Relaxed);
    }
    fn sub_then_add(&self) {
        let d = self.1.load(Ordering::Relaxed);
        let i = self.0.load(Ordering::Relaxed);
        self.1.store(d - 1, Ordering::Relaxed);
        self.0.store(i + 1, Ordering::Relaxed);
    }
}

#[test]
fn lamports_bakery_sequential_works() {
    let data = TestData::default();
    for i in 0..N_THREADS {
        for _ in 0..BAKERY_WORK {
            if i % 2 == 0 {
                data.add_then_sub();
            } else {
                data.sub_then_add();
            }
        }
    }
    assert_eq!(data.0.load(Ordering::Relaxed), BAKERY_WORK * N_THREADS);
    assert_eq!(data.1.load(Ordering::Relaxed), -BAKERY_WORK * N_THREADS);
}

#[test]
fn peterson_sequential_works() {
    let data = TestData::default();
    for _ in 0..PETERSON_WORK {
        data.add_then_sub();
    }
    for _ in 0..PETERSON_WORK {
        data.sub_then_add();
    }
    assert_eq!(data.0.load(Ordering::Relaxed), PETERSON_WORK * 2);
    assert_eq!(data.1.load(Ordering::Relaxed), -PETERSON_WORK * 2);
}

#[test]
fn bakery_model_serves_in_ticket_order() {
    let mut board = Bakery::new(2);
    let p0 = BakeryN::new(0, &board);
    let p1 = BakeryN::new(1, &board);

    let w0 = p0.want_lock(&mut board);
    let w1 = p1.want_lock(&mut board);
    assert_eq!(w0.q_no, 1);
    assert_eq!(w1.q_no, 2);
    assert!(w0.can_enter(&board));
    assert!(!w1.can_enter(&board));

    let g0 = w0.wait(&board);
    g0.release(&mut board);
    assert!(w1.can_enter(&board));
    let g1 = w1.wait(&board);
    g1.release(&mut board);
    assert!(board.q_nos.iter().all(|&q| q == FREE));
}

#[test]
fn bakery_model_abandoned_claim_frees_slot() {
    let mut board = Bakery::new(3);
    let p0 = BakeryN::new(0, &board);
    let p2 = BakeryN::new(2, &board);

    let w0 = p0.want_lock(&mut board);
    let w2 = p2.want_lock(&mut board);
    assert!(!w2.can_enter(&board));
    w0.abandon(&mut board);
    assert!(w2.can_enter(&board));
    let g2 = w2.wait(&board);
    g2.release(&mut board);
    assert!(board.q_nos.iter().all(|&q| q == FREE));
}

#[test]
fn peterson_model_yields_turn() {
    let mut board = Peterson::default();
    let (a, b) = Peterson::binary_mutex();

    let wa = a.want_lock(&mut board);
    assert!(wa.can_enter(&board)); // the other side is not interested
    let wb = b.want_lock(&mut board); // registering yields the turn
    assert!(wa.can_enter(&board));
    assert!(!wb.can_enter(&board));

    let ga = wa.wait(&board);
    ga.release(&mut board);
    assert!(wb.can_enter(&board));
    let gb = wb.wait(&board);
    gb.release(&mut board);
    assert!(!board.a_wants && !board.b_wants);
}
