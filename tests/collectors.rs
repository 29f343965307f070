use fas_rs::frametime::{FrameStep, FrametimeCollector};
use fas_rs::window::FpsWindow;

fn delivered(step: FrameStep) -> Option<Vec<u64>> {
    match step {
        FrameStep::Deliver(b) => Some(b),
        _ => None,
    }
}

#[test]
fn frametime_batch_of_three() {
    let mut c = FrametimeCollector::new();
    c.resume(3);
    assert!(matches!(c.step(Some(100)), FrameStep::Read));
    assert!(matches!(c.step(Some(100)), FrameStep::Poll));
    assert!(matches!(c.step(Some(110)), FrameStep::Read));
    assert!(matches!(c.step(Some(125)), FrameStep::Read));
    let batch = delivered(c.step(Some(145))).unwrap();
    assert_eq!(batch, vec![10, 15, 20]);
    assert!(c.buffer.is_empty());
    // the next batch is measured from the last timestamp
    assert!(matches!(c.step(Some(150)), FrameStep::Read));
    assert_eq!(c.buffer, vec![5]);
}

#[test]
fn frametime_disabled_reading_reenables_and_drops_span() {
    let mut c = FrametimeCollector::new();
    c.resume(2);
    assert!(matches!(c.step(Some(10)), FrameStep::Read));
    assert!(matches!(c.step(None), FrameStep::Reenable));
    // a new base is taken, no sample spans the gap
    assert!(matches!(c.step(Some(40)), FrameStep::Read));
    assert!(c.buffer.is_empty());
    assert!(matches!(c.step(Some(50)), FrameStep::Read));
    let batch = delivered(c.step(Some(70))).unwrap();
    assert_eq!(batch, vec![10, 20]);
}

#[test]
fn frametime_never_yields_zero_or_backwards() {
    let mut c = FrametimeCollector::new();
    c.resume(4);
    c.step(Some(50));
    assert!(matches!(c.step(Some(50)), FrameStep::Poll));
    assert!(matches!(c.step(Some(40)), FrameStep::Poll));
    assert!(c.buffer.is_empty());
}

#[test]
fn frametime_pause_discards_partial_batch() {
    let mut c = FrametimeCollector::new();
    c.resume(3);
    c.step(Some(1000));
    c.step(Some(1010));
    c.step(Some(1030));
    assert_eq!(c.buffer, vec![10, 20]);
    c.pause();
    assert!(c.buffer.is_empty());
    c.resume(3);
    c.step(Some(2000));
    c.step(Some(2001));
    c.step(Some(2003));
    let batch = delivered(c.step(Some(2006))).unwrap();
    assert_eq!(batch, vec![1, 2, 3]);
}

#[test]
fn frametime_one_batch_outstanding() {
    let mut c = FrametimeCollector::new();
    c.resume(2);
    c.step(Some(0));
    let mut batches = 0;
    let mut t: u64 = 0;
    for _ in 0..10 {
        t += 7;
        if let Some(b) = delivered(c.step(Some(t))) {
            assert_eq!(b, vec![7, 7]);
            batches += 1;
        }
        assert!(c.buffer.len() < 2);
    }
    assert_eq!(batches, 5);
}

#[test]
fn frametime_zero_count_delivers_empty_batches() {
    let mut c = FrametimeCollector::new();
    c.resume(0);
    c.step(Some(1));
    let batch = delivered(c.step(Some(2))).unwrap();
    assert!(batch.is_empty());
}

#[test]
fn window_average_of_survivors() {
    let mut w = FpsWindow::new();
    w.resume(100);
    assert!(w.record(0, Some(60)));
    assert!(w.record(50, Some(90)));
    assert!(w.record(120, Some(120)));
    assert_eq!(w.tick(120), 105);
    assert_eq!(w.samples, vec![(50, 90), (120, 120)]);
    assert_eq!(w.published, 105);
    assert_eq!(w.tick(1000), 0);
    assert!(w.samples.is_empty());
}

#[test]
fn window_rounds_down_and_skips_missing() {
    let mut w = FpsWindow::new();
    w.resume(1000);
    assert!(w.record(1, Some(1)));
    assert!(!w.record(2, None));
    assert!(w.record(3, Some(2)));
    assert_eq!(w.tick(4), 1);
}

#[test]
fn window_empty_is_zero_and_pause_clears() {
    let mut w = FpsWindow::new();
    assert_eq!(w.tick(5), 0);
    w.resume(10);
    w.record(5, Some(u32::MAX));
    w.record(6, Some(u32::MAX));
    assert_eq!(w.tick(6), u32::MAX);
    w.pause();
    assert!(w.samples.is_empty());
    assert_eq!(w.published, u32::MAX);
    assert_eq!(w.tick(7), 0);
}
