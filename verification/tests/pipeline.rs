use led_cube::cube::CubeDriver;
use led_cube::frame::blank;
use led_cube::lines::{Level, Line, Step, Timing};
use led_cube::mailbox::{Mailbox, PipelineClosed, Poll};
use led_cube::pipeline::RenderPipeline;

const LINES: [Line; 15] = [
    Line::LayerSelect0,
    Line::LayerSelect1,
    Line::LayerSelect2,
    Line::OutputEnable,
    Line::Par1,
    Line::Par2,
    Line::Par3,
    Line::Par4,
    Line::Par5,
    Line::Par6,
    Line::Par7,
    Line::Par8,
    Line::LatchClock,
    Line::ShiftClock,
    Line::ShiftClear,
];

fn frame(tag: u8) -> [[u8; 8]; 8] {
    [[tag; 8]; 8]
}

fn started() -> (RenderPipeline, Vec<Step>) {
    match RenderPipeline::start(&[true; 15], Timing::default()) {
        Ok(ok) => ok,
        Err(e) => panic!("unexpected {:?}", e),
    }
}

fn sweep(f: [[u8; 8]; 8]) -> Vec<Step> {
    let (mut driver, _) = CubeDriver::try_new(&[true; 15], Timing::default()).ok().unwrap();
    driver.write_frame(f)
}

/// Stands in for the physical lines: remembers the last level written.
fn record(levels: &mut [Option<Level>; 15], steps: &[Step]) {
    for step in steps {
        if let Step::Write { line, level } = *step {
            levels[line.index()] = Some(level);
        }
    }
}

#[test]
fn start_fails_when_a_line_is_missing() {
    let mut claimed = [true; 15];
    claimed[3] = false;
    match RenderPipeline::start(&claimed, Timing::default()) {
        Err(e) => assert_eq!(e.line, Line::OutputEnable),
        Ok(_) => panic!("a line is missing"),
    }
}

#[test]
fn start_shows_a_dark_frame() {
    let (mut pipeline, steps) = started();
    assert_eq!(steps.len(), 5);
    assert!(pipeline.is_running());
    assert_eq!(pipeline.current_frame(), blank());
    let mut m = Mailbox::new();
    assert_eq!(pipeline.refresh(&mut m), sweep(blank()));
}

#[test]
fn refresh_redraws_the_same_frame_until_a_new_one_arrives() {
    let (mut pipeline, _) = started();
    let mut m = Mailbox::new();
    assert_eq!(m.send(frame(0x42)), Ok(()));
    assert_eq!(pipeline.refresh(&mut m), sweep(frame(0x42)));
    assert_eq!(pipeline.current_frame(), frame(0x42));
    for _ in 0..3 {
        assert_eq!(pipeline.refresh(&mut m), sweep(frame(0x42)));
    }
    assert_eq!(m.send(frame(0x43)), Ok(()));
    assert_eq!(pipeline.refresh(&mut m), sweep(frame(0x43)));
    assert!(pipeline.is_running());
}

#[test]
fn the_pipeline_shows_the_latest_of_many_frames() {
    let (mut pipeline, _) = started();
    let mut m = Mailbox::new();
    for tag in 0..20 {
        assert_eq!(m.send(frame(tag)), Ok(()));
    }
    let _ = pipeline.refresh(&mut m);
    assert_eq!(pipeline.current_frame(), frame(19));
    let _ = pipeline.refresh(&mut m);
    assert_eq!(pipeline.current_frame(), frame(19));
}

#[test]
fn a_closed_mailbox_ends_the_pipeline_and_darkens_the_cube() {
    let (mut pipeline, startup) = started();
    let mut lines = [None; 15];
    record(&mut lines, &startup);
    let mut m = Mailbox::new();
    assert_eq!(m.send(frame(0xff)), Ok(()));
    record(&mut lines, &pipeline.refresh(&mut m));
    m.close();
    let last = pipeline.refresh(&mut m);
    assert_eq!(last.len(), 15);
    record(&mut lines, &last);
    assert!(!pipeline.is_running());
    assert!(m.is_abandoned());
    for line in LINES {
        assert_eq!(lines[line.index()], Some(line.inert_level()));
    }
    assert_eq!(lines[Line::OutputEnable.index()], Some(Level::High));
}

#[test]
fn a_frame_pending_at_close_is_still_shown() {
    let (mut pipeline, _) = started();
    let mut m = Mailbox::new();
    assert_eq!(m.send(frame(5)), Ok(()));
    m.close();
    assert_eq!(pipeline.refresh(&mut m), sweep(frame(5)));
    assert!(pipeline.is_running());
    assert_eq!(pipeline.refresh(&mut m).len(), 15);
    assert!(!pipeline.is_running());
}

#[test]
fn a_stopped_pipeline_does_nothing() {
    let (mut pipeline, _) = started();
    let mut m = Mailbox::new();
    m.close();
    assert_eq!(pipeline.refresh(&mut m).len(), 15);
    assert_eq!(pipeline.refresh(&mut m), vec![]);
    assert_eq!(pipeline.shutdown(&mut m), vec![]);
    assert_eq!(m.poll(), Poll::Closed);
}

#[test]
fn shutdown_releases_the_lines_once() {
    let (mut pipeline, startup) = started();
    let mut lines = [None; 15];
    record(&mut lines, &startup);
    let mut m = Mailbox::new();
    assert_eq!(m.send(frame(0xaa)), Ok(()));
    record(&mut lines, &pipeline.refresh(&mut m));
    let teardown = pipeline.shutdown(&mut m);
    assert_eq!(teardown.len(), 15);
    record(&mut lines, &teardown);
    assert!(!pipeline.is_running());
    assert!(m.is_abandoned());
    assert_eq!(m.send(frame(1)), Err(PipelineClosed));
    for line in LINES {
        assert_eq!(lines[line.index()], Some(line.inert_level()));
    }
    assert_eq!(pipeline.shutdown(&mut m), vec![]);
    assert_eq!(pipeline.refresh(&mut m), vec![]);
}
