use std::sync::atomic::{AtomicBool, Ordering};

use led_cube::forwarder::{Forwarder, Pace};
use led_cube::mailbox::{Mailbox, Poll};
use led_cube::rotation::{invert, Rotation};

fn frame(tag: u8) -> [[u8; 8]; 8] {
    let mut f = [[0u8; 8]; 8];
    f[1][2] = tag;
    f
}

#[test]
fn forwards_the_transformed_frame_and_asks_for_the_delay() {
    let mut m = Mailbox::new();
    let mut fwd = Forwarder::new(Rotation::RotateAboutY, true, 100_000);
    assert_eq!(fwd.turn(false, Some(frame(0x08)), &mut m), Pace::Wait { micros: 100_000 });
    assert!(!fwd.is_stopped());
    let mut rotated = [[0u8; 8]; 8];
    rotated[5][1] = 0x08;
    assert_eq!(m.poll(), Poll::Frame(invert(&rotated)));
    assert!(!m.is_closed());
}

#[test]
fn forwards_unchanged_with_identity() {
    let mut m = Mailbox::new();
    let mut fwd = Forwarder::new(Rotation::Identity, false, 1);
    assert_eq!(fwd.turn(false, Some(frame(9)), &mut m), Pace::Wait { micros: 1 });
    assert_eq!(m.poll(), Poll::Frame(frame(9)));
}

#[test]
fn cancellation_stops_before_sending() {
    let mut m = Mailbox::new();
    let mut fwd = Forwarder::new(Rotation::Identity, false, 10);
    assert_eq!(fwd.turn(false, Some(frame(1)), &mut m), Pace::Wait { micros: 10 });
    assert_eq!(fwd.turn(true, Some(frame(2)), &mut m), Pace::Stop);
    assert!(fwd.is_stopped());
    assert!(m.is_closed());
    // The last accepted frame is the one sent before the flag was set.
    assert_eq!(m.poll(), Poll::Frame(frame(1)));
    assert_eq!(m.poll(), Poll::Closed);
}

#[test]
fn nothing_is_sent_once_cancelled() {
    let mut m = Mailbox::new();
    let mut fwd = Forwarder::new(Rotation::Identity, false, 10);
    assert_eq!(fwd.turn(true, Some(frame(1)), &mut m), Pace::Stop);
    for tag in 2..20 {
        // Even if the flag were cleared again.
        assert_eq!(fwd.turn(tag % 2 == 0, Some(frame(tag)), &mut m), Pace::Stop);
        assert_eq!(m.poll(), Poll::Closed);
    }
    assert!(fwd.is_stopped());
}

#[test]
fn an_exhausted_source_closes_the_mailbox() {
    let mut m = Mailbox::new();
    let mut fwd = Forwarder::new(Rotation::Identity, false, 10);
    assert_eq!(fwd.turn(false, Some(frame(1)), &mut m), Pace::Wait { micros: 10 });
    assert_eq!(fwd.turn(false, None, &mut m), Pace::Stop);
    assert!(m.is_closed());
    assert_eq!(m.poll(), Poll::Frame(frame(1)));
    assert_eq!(m.poll(), Poll::Closed);
}

#[test]
fn a_closed_pipeline_stops_the_forwarder() {
    let mut m = Mailbox::new();
    m.abandon();
    let mut fwd = Forwarder::new(Rotation::Identity, false, 10);
    assert_eq!(fwd.turn(false, Some(frame(1)), &mut m), Pace::Stop);
    assert!(fwd.is_stopped());
    assert!(m.is_closed());
    assert_eq!(m.poll(), Poll::Closed);
}

#[test]
fn the_shared_flag_stops_the_forwarder() {
    let flag = AtomicBool::new(false);
    let mut m = Mailbox::new();
    let mut fwd = Forwarder::new(Rotation::Identity, false, 25);
    assert_eq!(fwd.forward(&flag, Some(frame(1)), &mut m), Pace::Wait { micros: 25 });
    assert_eq!(fwd.forward(&flag, Some(frame(2)), &mut m), Pace::Wait { micros: 25 });
    flag.store(true, Ordering::Relaxed);
    assert_eq!(fwd.forward(&flag, Some(frame(3)), &mut m), Pace::Stop);
    assert!(fwd.is_stopped());
    assert!(m.is_closed());
    assert!(flag.load(Ordering::Relaxed));
    assert_eq!(m.poll(), Poll::Frame(frame(2)));
    assert_eq!(m.poll(), Poll::Closed);
}
