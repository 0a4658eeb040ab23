//! Scenario tests for the alternate, notifier delivery mode.

use ring_reactor::driver::Driver;
use ring_reactor::driver::Fault;
use ring_reactor::driver::SubmitError;
use ring_reactor::notify::Responder;
use ring_reactor::record::CompletionRecord;
use ring_reactor::ring::MemRing;
use tokio::sync::broadcast;
use tokio::sync::oneshot;

fn rec(tag: u64, result: i32) -> CompletionRecord {
    CompletionRecord { tag, result, flags: 0 }
}

#[test]
fn multi_shot_fans_out_and_late_subscriber_misses_earlier() {
    let (tx, mut rx1) = broadcast::channel::<CompletionRecord>(16);
    let mut rx2 = tx.subscribe();
    let mut driver: Driver<u8, MemRing<()>> = Driver::new(MemRing::new(4));
    let tag = driver
        .submit_oneshot((), 0, Responder::MultiShot(tx.clone()))
        .expect("submission should fit");
    driver.ring.deliver(rec(tag, 1));
    driver.complete_events().expect("drain");
    // a subscriber that attaches late sees only what comes afterwards
    let mut rx3 = tx.subscribe();
    driver.ring.deliver(rec(tag, 2));
    driver.ring.deliver(rec(tag, 3));
    driver.complete_events().expect("drain");
    // one submission, three completions, and the entry is retained
    assert!(driver.reactor.contains(tag));
    for expected in [1, 2, 3] {
        assert_eq!(rx1.try_recv().expect("early subscriber").result, expected);
        assert_eq!(rx2.try_recv().expect("early subscriber").result, expected);
    }
    assert_eq!(rx3.try_recv().expect("late subscriber").result, 2);
    assert_eq!(rx3.try_recv().expect("late subscriber").result, 3);
    assert!(rx3.try_recv().is_err());
    assert!(rx1.try_recv().is_err());
}

#[test]
fn one_shot_delivers_once_and_removes_the_entry() {
    let (tx, mut rx) = oneshot::channel::<CompletionRecord>();
    let mut driver: Driver<u8, MemRing<()>> = Driver::new(MemRing::new(4));
    let tag = driver
        .submit_oneshot((), 0, Responder::OneShot(tx))
        .expect("submission should fit");
    driver.ring.deliver(rec(tag, 9));
    driver.complete_events().expect("drain");
    assert!(!driver.reactor.contains(tag));
    assert_eq!(rx.try_recv().expect("delivered").result, 9);
    // a second delivery for the already-removed tag is detected, not ignored
    driver.ring.deliver(rec(tag, 9));
    assert_eq!(driver.complete_events(), Err(Fault::UnknownTag(tag)));
}

#[test]
fn notifier_queue_full_closes_the_channel() {
    let (tx, mut rx) = oneshot::channel::<CompletionRecord>();
    let mut driver: Driver<u8, MemRing<()>> = Driver::new(MemRing::new(0));
    match driver.submit_oneshot((), 0, Responder::OneShot(tx)) {
        Err(SubmitError::Full(())) => {}
        _ => panic!("expected the ring to stay full"),
    }
    // nothing was registered, and dropping the responder closed the channel
    assert!(rx.try_recv().is_err());
}

#[test]
fn responder_mode_accessor() {
    let (tx, _rx) = oneshot::channel::<CompletionRecord>();
    assert!(Responder::OneShot(tx).one_shot().is_some());
    let (btx, _brx) = broadcast::channel::<CompletionRecord>(4);
    assert!(Responder::MultiShot(btx).one_shot().is_none());
}
