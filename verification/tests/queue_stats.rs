use std::sync::mpsc;

use fyler_app::queue_stats::{count_sent, CountingSender, QueueGauge};

#[test]
fn enqueue_dequeue_tracks_depth_and_high_water() {
    let mut gauge = QueueGauge::new();
    let (tx, rx) = mpsc::channel();
    let tx = CountingSender::new(tx);

    tx.send(&mut gauge, 1).unwrap();
    tx.send(&mut gauge, 2).unwrap();
    assert_eq!(gauge.depth(), 2);
    assert_eq!(gauge.high_water(), 2);

    assert_eq!(rx.recv().unwrap(), 1);
    gauge.dequeue();
    assert_eq!(gauge.depth(), 1);
    assert_eq!(gauge.high_water(), 2);
}

#[test]
fn many_sends_keep_high_water_monotonic() {
    let mut gauge = QueueGauge::new();
    let (tx, rx) = mpsc::channel();
    let tx = CountingSender::new(tx);
    for worker in 0..4 {
        for item in 0..250 {
            tx.send(&mut gauge, (worker, item)).unwrap();
        }
    }
    assert_eq!(gauge.depth(), 1_000);
    assert_eq!(gauge.high_water(), 1_000);

    for _ in 0..1_000 {
        rx.recv().unwrap();
        gauge.dequeue();
        assert_eq!(gauge.high_water(), 1_000);
    }
    assert_eq!(gauge.depth(), 0);
}

#[test]
fn value_that_cannot_be_sent_comes_back_uncounted() {
    let mut gauge = QueueGauge::new();
    let (tx, rx) = mpsc::channel();
    let tx = CountingSender::new(tx);
    drop(rx);
    assert_eq!(tx.send(&mut gauge, 5), Err(5));
    assert_eq!(gauge.depth(), 0);
}

#[test]
fn only_what_was_sent_is_counted() {
    let mut gauge = QueueGauge::new();
    assert_eq!(count_sent(&mut gauge, Ok::<(), u8>(())), Ok(()));
    assert_eq!(count_sent(&mut gauge, Err(7u8)), Err(7));
    assert_eq!(gauge.depth(), 1);
    assert_eq!(gauge.high_water(), 1);
}

#[test]
fn high_water_is_the_largest_depth_there_was() {
    let mut gauge = QueueGauge::new();
    let mut depths = Vec::new();
    for put_in in [true, true, true, false, false, true, false, true, true] {
        if put_in {
            count_sent(&mut gauge, Ok::<(), u8>(())).unwrap();
        } else {
            gauge.dequeue();
        }
        depths.push(gauge.depth());
    }
    assert_eq!(depths, [1, 2, 3, 2, 1, 2, 1, 2, 3]);
    assert_eq!(gauge.high_water(), 3);
}

#[test]
fn senders_of_one_queue_count_together() {
    let mut gauge = QueueGauge::new();
    let (tx, rx) = mpsc::channel();
    let first = CountingSender::new(tx.clone());
    let second = CountingSender::new(tx);
    first.send(&mut gauge, 1).unwrap();
    second.send(&mut gauge, 2).unwrap();
    assert_eq!(gauge.depth(), 2);
    assert_eq!(gauge.high_water(), 2);
    assert_eq!(rx.recv().unwrap(), 1);
    assert_eq!(rx.recv().unwrap(), 2);
}
