use std::cell::Cell;

use rads::order::chandy_lamport::{ChandyLamportClock, ChandyLamportProc};
use rads::order::OrdProcess;

fn initiate(p: &mut ChandyLamportProc) -> ChandyLamportClock {
    let sent: Cell<Option<ChandyLamportClock>> = Cell::new(None);
    p.global_snapshot(|e| sent.set(Some(e)));
    sent.get().unwrap()
}

#[test]
fn snapshot_after_send_before_recv() {
    // A message is sent, then the sender initiates a snapshot. FIFO order
    // delivers the message before the marker, so it lands in the receiver's
    // recorded local state and never in channel state.
    let mut p0 = ChandyLamportProc::new(0, 2);
    let mut p1 = ChandyLamportProc::new(1, 2);

    let mut msg = None;
    p0.send(|e| msg = Some(e));
    let marker = initiate(&mut p0);

    let s0 = p0.snapshots();
    assert_eq!(s0.len(), 1);
    assert_eq!(s0[0].1.len(), 1); // the send event is in the initiator's cut

    p1.recv(|| msg.unwrap());
    assert!(p1.snapshots().is_empty());
    p1.recv_from(0, || marker);

    let s1 = p1.snapshots();
    assert_eq!(s1.len(), 1);
    assert_eq!(s1[0].1.len(), 1); // message counted in local state only
    assert_eq!(p1.records()[0].channel_messages(0).len(), 0);
    assert!(p1.records()[0].is_complete());

    // The receiver forwards the marker, closing the initiator's recording.
    let fwd = p1.take_forwards();
    assert_eq!(fwd, vec![marker]);
    p0.recv_from(1, || fwd[0]);
    assert!(p0.records()[0].is_complete());
    assert_eq!(p0.records()[0].channel_messages(1).len(), 0);
}

#[test]
fn snapshot_after_send_recv() {
    // The message is sent and received before any marker exists: it is part
    // of both recorded local states and of no channel state.
    let mut p0 = ChandyLamportProc::new(0, 2);
    let mut p1 = ChandyLamportProc::new(1, 2);

    let mut msg = None;
    p0.send(|e| msg = Some(e));
    p1.recv(|| msg.unwrap());

    let marker = initiate(&mut p0);
    p1.recv_from(0, || marker);

    let s1 = p1.snapshots();
    assert_eq!(s1.len(), 1);
    assert_eq!(s1[0].1.len(), 1);
    assert_eq!(p1.records()[0].channel_messages(0).len(), 0);
    assert!(p1.records()[0].is_complete());
}

#[test]
fn union_snapshots() {
    // Two processes initiate snapshots concurrently: keyed by marker
    // identity, the records proceed independently, and every process ends up
    // holding one record per identity.
    let mut p0 = ChandyLamportProc::new(0, 2);
    let mut p1 = ChandyLamportProc::new(1, 2);

    p0.exec(|| {});
    let m0 = initiate(&mut p0);
    p1.exec(|| {});
    p1.exec(|| {});
    let m1 = initiate(&mut p1);
    assert_ne!(m0, m1);

    p1.recv_from(0, || m0);
    p0.recv_from(1, || m1);

    let s0 = p0.snapshots();
    let s1 = p1.snapshots();
    assert_eq!(s0.len(), 2);
    assert_eq!(s1.len(), 2);
    assert!(s0.iter().any(|r| r.0 == m0) && s0.iter().any(|r| r.0 == m1));
    assert!(s1.iter().any(|r| r.0 == m0) && s1.iter().any(|r| r.0 == m1));

    // Each side forwards the identity it had not initiated itself.
    let f0 = p0.take_forwards();
    let f1 = p1.take_forwards();
    assert_eq!(f0, vec![m1]);
    assert_eq!(f1, vec![m0]);
    p0.recv_from(1, || f1[0]);
    p1.recv_from(0, || f0[0]);
    assert!(p0.records().iter().all(|r| r.is_complete()));
    assert!(p1.records().iter().all(|r| r.is_complete()));
}

#[test]
fn intersection_snapshots() {
    // Two identities on one process never share state: a message that is
    // past one identity's cut can still be inside another's.
    let mut p0 = ChandyLamportProc::new(0, 2);
    let mut p1 = ChandyLamportProc::new(1, 2);

    p0.exec(|| {});
    let m0 = initiate(&mut p0);
    let mut msg = None;
    p0.send(|e| msg = Some(e)); // travels after the marker

    p1.recv_from(0, || m0); // record for m0: empty local state, complete
    p1.recv(|| msg.unwrap()); // past m0's cut
    let m1 = initiate(&mut p1); // record for m1: one event of local state

    let s1 = p1.snapshots();
    assert_eq!(s1.len(), 2);
    let r0 = s1.iter().find(|r| r.0 == m0).unwrap();
    let r1 = s1.iter().find(|r| r.0 == m1).unwrap();
    assert_eq!(r0.1.len(), 0);
    assert_eq!(r1.1.len(), 1);
    assert_eq!(p1.records()[0].channel_messages(0).len(), 0);
}

#[test]
fn in_flight_message_recorded_on_channel() {
    // A message still in flight when the receiver's cut is taken — the
    // marker reached the receiver on another channel first — must appear in
    // that channel's recorded state, not in the recorded local state, and
    // must not be lost.
    let mut p0 = ChandyLamportProc::new(0, 3);
    let mut p1 = ChandyLamportProc::new(1, 3);
    let mut p2 = ChandyLamportProc::new(2, 3);

    let mut msg = None;
    p0.send(|e| msg = Some(e)); // in flight towards p1
    let msg = msg.unwrap();

    let m2 = initiate(&mut p2);
    p1.recv_from(2, || m2); // p1's cut is taken before the message lands
    assert_eq!(p1.records()[0].recorded_len(), 0);
    assert!(p1.records()[0].is_recording(0));

    p1.recv(|| msg); // processed normally, and recorded as channel state
    assert_eq!(p1.snapshot().len(), 1);
    assert_eq!(p1.records()[0].recorded_len(), 0);
    assert_eq!(p1.records()[0].channel_messages(0).as_slice(), &[msg]);

    // p0 learns of the snapshot and forwards the marker, closing the
    // channel's recording; what was recorded stays.
    p0.recv_from(2, || m2);
    let f0 = p0.take_forwards();
    assert_eq!(f0, vec![m2]);
    p1.recv_from(0, || f0[0]);
    assert!(!p1.records()[0].is_recording(0));
    assert_eq!(p1.records()[0].channel_messages(0).as_slice(), &[msg]);
    assert_eq!(p1.records()[0].recorded_len(), 0);
}

#[test]
fn duplicate_marker_is_noop() {
    // Redundant fan-out delivers the same marker identity twice: exactly one
    // snapshot record exists afterwards, and its state is untouched.
    let mut p0 = ChandyLamportProc::new(0, 3);
    let mut p1 = ChandyLamportProc::new(1, 3);

    let m0 = initiate(&mut p0);
    p1.recv_from(0, || m0);
    assert_eq!(p1.snapshots().len(), 1);
    let fwd = p1.take_forwards();
    assert_eq!(fwd, vec![m0]);

    p1.recv_from(2, || m0); // the same identity, forwarded by process 2
    assert_eq!(p1.snapshots().len(), 1);
    assert_eq!(p1.records()[0].recorded_len(), 0);
    assert_eq!(p1.take_forwards(), vec![]); // no re-forwarding either
    assert!(p1.records()[0].is_complete());
}
