use rads::order::matrix_clock::GCProcess;
use rads::order::OrdProcess;
use rand::Rng;

#[test]
fn gc_after_all_seen() {
    let mut rng = rand::thread_rng();
    let n_procs = rng.gen_range(2..=200);
    let mut ps: Vec<_> = (0..n_procs).map(|i| GCProcess::new(i, n_procs)).collect();

    // 0 does some work
    let n_events = rng.gen_range(1..=200);
    for _ in 0..n_events {
        ps[0].exec(|| {});
    }
    assert_eq!(ps[0].gc(), vec![]);
    assert_eq!(ps[0].snapshot().len(), n_events);

    // Send from 0->1->2->...->n-1
    for (i, j) in (0..).zip(1..n_procs) {
        let mut e = None;
        ps[i].send(|ev| {
            e = Some(ev);
        });
        ps[j].recv(|| e.unwrap());
        assert_eq!(ps[0].gc(), vec![]);
        assert_eq!(ps[0].snapshot().len(), n_events + 1); // + send event
    }

    // Send from n-1->0, can GC n_events + send event
    let mut e = None;
    ps.last_mut().unwrap().send(|ev| {
        e = Some(ev);
    });
    ps[0].recv(|| e.unwrap());
    let gc = ps[0].gc();
    assert_eq!(gc.len(), n_events + 1, "Got {gc:?}");
    assert_eq!(ps[0].snapshot().len(), 1); // recv event only
}

#[test]
fn ring_release_after_cycle() {
    // Scenario: process 0 executes k local events; messages are relayed
    // around the ring; only once the cycle closes does gc() on process 0
    // drain the k + 1 retained events, leaving the newest receive event.
    let n_procs = 3;
    let k = 2;
    let mut ps: Vec<_> = (0..n_procs).map(|i| GCProcess::new(i, n_procs)).collect();
    for _ in 0..k {
        ps[0].exec(|| {});
    }
    assert_eq!(ps[0].gc(), vec![]);
    assert_eq!(ps[0].snapshot().len(), k);

    for (i, j) in (0..).zip(1..n_procs) {
        let mut e = None;
        ps[i].send(|ev| {
            e = Some(ev);
        });
        ps[j].recv(|| e.unwrap());
        assert_eq!(ps[0].gc(), vec![]);
        assert_eq!(ps[0].snapshot().len(), k + 1);
    }

    let mut e = None;
    ps[n_procs - 1].send(|ev| {
        e = Some(ev);
    });
    ps[0].recv(|| e.unwrap());
    assert_eq!(ps[0].gc().len(), k + 1);
    assert_eq!(ps[0].snapshot().len(), 1);
}

#[test]
fn merge_propagates_transitive_knowledge() {
    // p0 works and sends to p1; p1 relays to p2. p2 has never heard from p0
    // directly, yet its matrix carries p0's counter — and records that p1
    // has seen it too.
    let mut p0 = GCProcess::new(0, 3);
    let mut p1 = GCProcess::new(1, 3);
    let mut p2 = GCProcess::new(2, 3);

    p0.exec(|| {});
    let mut m = None;
    p0.send(|e| m = Some(e));
    p1.recv(|| m.unwrap());
    let mut m2 = None;
    p1.send(|e| m2 = Some(e));
    p2.recv(|| m2.unwrap());

    let events = p2.snapshot();
    let latest = &events[events.len() - 1];
    assert_eq!(latest.dim(), 3);
    // p0's counter after one local step and a send, known transitively:
    assert_eq!(latest.entry(0, 0), 3);
    assert_eq!(latest.entry(1, 0), 3); // ...and p2 knows p1 has seen it
    assert_eq!(latest.entry(2, 0), 3); // ...and p2's own row is the union
    assert_eq!(latest.entry(1, 1), 3); // p1: a receive event and a send
    assert_eq!(latest.entry(2, 2), 2); // p2: genesis plus its receive
    assert_eq!(latest.entry(0, 1), 0); // p0 has heard from nobody
}

#[test]
fn gc_requires_global_observation() {
    // With one peer still unaware of process 0's events, nothing may be
    // collected; once its knowledge flows back, exactly the observed prefix
    // goes.
    let mut ps: Vec<_> = (0..2).map(|i| GCProcess::new(i, 2)).collect();
    ps[0].exec(|| {});
    ps[0].exec(|| {});
    assert_eq!(ps[0].gc(), vec![]);

    let mut e = None;
    ps[0].send(|ev| {
        e = Some(ev);
    });
    ps[1].recv(|| e.unwrap());
    // Process 1 has seen everything, but process 0 does not know that yet.
    assert_eq!(ps[0].gc(), vec![]);

    let mut back = None;
    ps[1].send(|ev| {
        back = Some(ev);
    });
    ps[0].recv(|| back.unwrap());
    // The three pre-receive events are now known to be observed by all.
    assert_eq!(ps[0].gc().len(), 3);
    assert_eq!(ps[0].snapshot().len(), 1);
}
