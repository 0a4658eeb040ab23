//! Scenario tests for the reactor core: submit/complete round trips, the
//! backpressure policy, abandonment, and the fatal consistency paths.

use std::cell::Cell;
use std::rc::Rc;

use futures::task::noop_waker;
use ring_reactor::driver::Driver;
use ring_reactor::driver::Fault;
use ring_reactor::driver::SubmitError;
use ring_reactor::ops::resolve;
use ring_reactor::ops::PollStep;
use ring_reactor::ops::SubmitOutcome;
use ring_reactor::ops::Unsubmitted;
use ring_reactor::record::CompletionRecord;
use ring_reactor::ring::MemRing;
use ring_reactor::ring::RingResource;

fn rec(tag: u64, result: i32) -> CompletionRecord {
    CompletionRecord { tag, result, flags: 0 }
}

/// Owned state whose drop count the tests can observe.
struct DropProbe {
    drops: Rc<Cell<u32>>,
}

impl Drop for DropProbe {
    fn drop(&mut self) {
        self.drops.set(self.drops.get() + 1);
    }
}

#[test]
fn round_trip_resolves_once() {
    let mut driver: Driver<u32, MemRing<()>> = Driver::new(MemRing::new(8));
    let op = Unsubmitted::new((), 41u32, |(c, s): (CompletionRecord, u32)| {
        if c.result >= 0 {
            Ok::<u32, i32>(s + 1)
        } else {
            Err(c.result)
        }
    });
    let (outcome, f) = op.submit(&mut driver);
    let fl = match outcome {
        SubmitOutcome::Flying(fl) => fl,
        _ => panic!("expected the operation to be in flight"),
    };
    let tag = fl.id;
    // not ready before the completion arrives; repeated polls just repark
    let fl = match fl.poll(&mut driver, noop_waker()) {
        PollStep::Pending(fl) => fl,
        PollStep::Ready(..) => panic!("resolved before any completion"),
    };
    let fl = match fl.poll(&mut driver, noop_waker()) {
        PollStep::Pending(fl) => fl,
        PollStep::Ready(..) => panic!("resolved before any completion"),
    };
    driver.ring.deliver(rec(tag, 0));
    driver.complete_events().expect("drain");
    match fl.poll(&mut driver, noop_waker()) {
        PollStep::Ready(c, s) => {
            assert_eq!(c.tag, tag);
            assert_eq!(s, 41);
            assert_eq!(resolve(f, c, s), Ok(42));
        }
        PollStep::Pending(_) => panic!("completion was not observed"),
    }
    // the entry is gone afterwards
    assert!(!driver.reactor.contains(tag));
}

#[test]
fn negative_result_code_is_forwarded_verbatim() {
    let mut driver: Driver<u8, MemRing<()>> = Driver::new(MemRing::new(8));
    let op = Unsubmitted::new((), 0u8, |(c, s): (CompletionRecord, u8)| {
        if c.result >= 0 {
            Ok::<u8, i32>(s)
        } else {
            Err(c.result)
        }
    });
    let (outcome, f) = op.submit(&mut driver);
    let fl = match outcome {
        SubmitOutcome::Flying(fl) => fl,
        _ => panic!("expected the operation to be in flight"),
    };
    let tag = fl.id;
    driver.ring.deliver(rec(tag, -5));
    driver.complete_events().expect("drain");
    match fl.poll(&mut driver, noop_waker()) {
        PollStep::Ready(c, s) => assert_eq!(resolve(f, c, s), Err(-5)),
        PollStep::Pending(_) => panic!("completion was not observed"),
    }
}

#[test]
fn backpressure_single_retry_then_queue_full() {
    let mut driver: Driver<u8, MemRing<u8>> = Driver::new(MemRing::new(1));
    let t1 = match driver.fire_off(10u8, 0) {
        Ok(t) => t,
        Err(_) => panic!("first submission should fit"),
    };
    assert_eq!(driver.ring.flushes, 0);
    // second submission finds the ring full: exactly one flush-and-retry
    let t2 = match driver.fire_off(20u8, 0) {
        Ok(t) => t,
        Err(_) => panic!("retry after the flush should fit"),
    };
    assert_eq!(driver.ring.flushes, 1);
    assert_ne!(t1, t2);
    assert_eq!((t1, t2), (0, 1));
    // congest the kernel side: the flush frees nothing, so the retry fails
    driver.ring.congested = true;
    match driver.fire_off(30u8, 0) {
        Err(SubmitError::Full(d)) => assert_eq!(d, 30),
        _ => panic!("expected the ring to stay full"),
    }
    assert_eq!(driver.ring.flushes, 2);
    // no entry was left allocated for the failed submission
    assert!(!driver.reactor.contains(2));
    assert!(driver.reactor.contains(t1) && driver.reactor.contains(t2));
}

#[test]
fn abandon_before_completion_disposes_once() {
    let drops = Rc::new(Cell::new(0));
    let mut driver: Driver<DropProbe, MemRing<()>> = Driver::new(MemRing::new(4));
    let op = Unsubmitted::new(
        (),
        DropProbe { drops: drops.clone() },
        |(c, s): (CompletionRecord, DropProbe)| {
            let _ = s;
            Ok::<i32, i32>(c.result)
        },
    );
    let (outcome, _f) = op.submit(&mut driver);
    let fl = match outcome {
        SubmitOutcome::Flying(fl) => fl,
        _ => panic!("expected the operation to be in flight"),
    };
    let tag = fl.id;
    fl.abandon(&mut driver).expect("abandon while submitted");
    // the state is parked in the entry, still alive for the kernel
    assert_eq!(drops.get(), 0);
    assert!(driver.reactor.contains(tag));
    // the completion arrives: the entry is removed, the state dropped once,
    // and no consistency violation is reported
    driver.ring.deliver(rec(tag, 0));
    driver.complete_events().expect("drain after abandonment");
    assert!(!driver.reactor.contains(tag));
    assert_eq!(drops.get(), 1);
}

#[test]
fn abandon_while_waiting_disposes_once() {
    let drops = Rc::new(Cell::new(0));
    let mut driver: Driver<DropProbe, MemRing<()>> = Driver::new(MemRing::new(4));
    let op = Unsubmitted::new(
        (),
        DropProbe { drops: drops.clone() },
        |(c, s): (CompletionRecord, DropProbe)| {
            let _ = s;
            Ok::<i32, i32>(c.result)
        },
    );
    let (outcome, _f) = op.submit(&mut driver);
    let fl = match outcome {
        SubmitOutcome::Flying(fl) => fl,
        _ => panic!("expected the operation to be in flight"),
    };
    let tag = fl.id;
    let fl = match fl.poll(&mut driver, noop_waker()) {
        PollStep::Pending(fl) => fl,
        PollStep::Ready(..) => panic!("resolved before any completion"),
    };
    fl.abandon(&mut driver).expect("abandon while waiting");
    assert_eq!(drops.get(), 0);
    driver.ring.deliver(rec(tag, 0));
    driver.complete_events().expect("drain after abandonment");
    assert!(!driver.reactor.contains(tag));
    assert_eq!(drops.get(), 1);
}

#[test]
fn abandon_after_completion_releases_once() {
    let drops = Rc::new(Cell::new(0));
    let mut driver: Driver<DropProbe, MemRing<()>> = Driver::new(MemRing::new(4));
    let op = Unsubmitted::new(
        (),
        DropProbe { drops: drops.clone() },
        |(c, s): (CompletionRecord, DropProbe)| {
            let _ = s;
            Ok::<i32, i32>(c.result)
        },
    );
    let (outcome, _f) = op.submit(&mut driver);
    let fl = match outcome {
        SubmitOutcome::Flying(fl) => fl,
        _ => panic!("expected the operation to be in flight"),
    };
    let tag = fl.id;
    driver.ring.deliver(rec(tag, 0));
    driver.complete_events().expect("drain");
    assert_eq!(drops.get(), 0);
    // dropped without a final poll: entry removed, state released exactly once
    fl.abandon(&mut driver).expect("abandon after completion");
    assert!(!driver.reactor.contains(tag));
    assert_eq!(drops.get(), 1);
}

#[test]
fn consumer_ownership_follows_the_life_cycle() {
    let drops = Rc::new(Cell::new(0));
    let mut driver: Driver<DropProbe, MemRing<()>> = Driver::new(MemRing::new(4));
    let op = Unsubmitted::new(
        (),
        DropProbe { drops: drops.clone() },
        |(c, s): (CompletionRecord, DropProbe)| {
            let _ = s;
            Ok::<i32, i32>(c.result)
        },
    );
    let (outcome, _f) = op.submit(&mut driver);
    let fl = match outcome {
        SubmitOutcome::Flying(fl) => fl,
        _ => panic!("expected the operation to be in flight"),
    };
    let tag = fl.id;
    assert!(driver.consumer_owned(tag));
    fl.abandon(&mut driver).expect("abandon while submitted");
    // the entry is still live (it guards the state), but no consumer owns it
    assert!(driver.reactor.contains(tag));
    assert!(!driver.consumer_owned(tag));
    driver.ring.deliver(rec(tag, 0));
    driver.complete_events().expect("drain after abandonment");
    assert!(!driver.consumer_owned(tag));
}

#[test]
fn duplicate_delivery_is_fatal() {
    let mut driver: Driver<u8, MemRing<()>> = Driver::new(MemRing::new(4));
    let tag = match driver.fire_off((), 0) {
        Ok(t) => t,
        Err(_) => panic!("submission should fit"),
    };
    driver.ring.deliver(rec(tag, 0));
    driver.ring.deliver(rec(tag, 0));
    assert_eq!(driver.complete_events(), Err(Fault::DuplicateDelivery(tag)));
}

#[test]
fn unknown_tag_is_fatal() {
    let mut driver: Driver<u8, MemRing<()>> = Driver::new(MemRing::new(4));
    driver.ring.deliver(rec(7, 0));
    assert_eq!(driver.complete_events(), Err(Fault::UnknownTag(7)));
}

#[test]
fn queue_full_returns_descriptor_and_state() {
    let mut driver: Driver<u8, MemRing<u8>> = Driver::new(MemRing::new(0));
    let op = Unsubmitted::new(5u8, 6u8, |(c, _s): (CompletionRecord, u8)| {
        Ok::<i32, i32>(c.result)
    });
    let (outcome, _f) = op.submit(&mut driver);
    match outcome {
        SubmitOutcome::Full(d, s) => {
            assert_eq!(d, 5);
            assert_eq!(s, 6);
        }
        _ => panic!("expected the ring to stay full"),
    }
}

#[test]
fn backpressure_flush_drains_surfaced_completions() {
    let mut driver: Driver<u32, MemRing<u8>> = Driver::new(MemRing::new(1));
    let op_a = Unsubmitted::new(1u8, 7u32, |(c, s): (CompletionRecord, u32)| {
        let _ = c;
        Ok::<u32, i32>(s)
    });
    let (outcome_a, _fa) = op_a.submit(&mut driver);
    let fa = match outcome_a {
        SubmitOutcome::Flying(fl) => fl,
        _ => panic!("first submission should fit"),
    };
    let ta = fa.id;
    // the kernel completes the first operation while the ring is still full
    driver.ring.deliver(rec(ta, 0));
    // the next submission flushes, drains the surfaced completion
    // immediately, and then its retry succeeds
    let tb = match driver.fire_off(2u8, 0) {
        Ok(t) => t,
        Err(_) => panic!("retry after the flush should fit"),
    };
    assert_ne!(ta, tb);
    assert_eq!(driver.ring.flushes, 1);
    match fa.poll(&mut driver, noop_waker()) {
        PollStep::Ready(c, s) => {
            assert_eq!(c.tag, ta);
            assert_eq!(s, 7);
        }
        PollStep::Pending(_) => panic!("the drain during the flush should have completed it"),
    }
}

#[test]
fn flush_hands_queued_descriptors_to_the_kernel() {
    let mut ring: MemRing<u8> = MemRing::new(2);
    assert!(ring.try_push(0, 0, 11).is_none());
    assert!(ring.try_push(1, 0, 12).is_none());
    assert!(ring.try_push(2, 0, 13).is_some());
    // nothing surfaced, but the queued descriptors reach the kernel side
    assert!(!ring.flush());
    assert_eq!(ring.queued.len(), 0);
    assert_eq!(ring.accepted, vec![(0, 0, 11), (1, 0, 12)]);
    assert!(ring.try_push(2, 0, 13).is_none());
}

#[test]
fn flags_travel_with_the_descriptor() {
    let mut driver: Driver<u8, MemRing<u16>> = Driver::new(MemRing::new(4));
    let mut op = Unsubmitted::new(500u16, 1u8, |(c, _s): (CompletionRecord, u8)| {
        Ok::<i32, i32>(c.result)
    });
    op.flags(3);
    let (outcome, _f) = op.submit(&mut driver);
    let tag = match outcome {
        SubmitOutcome::Flying(fl) => fl.id,
        _ => panic!("expected the operation to be in flight"),
    };
    assert_eq!(driver.ring.queued.len(), 1);
    assert_eq!(driver.ring.queued[0], (tag, 3u8, 500u16));
}
