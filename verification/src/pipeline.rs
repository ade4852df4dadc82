//! The render pipeline: keeps the cube showing the newest frame.
//!
//! The multiplexed hardware remembers nothing, so the pipeline redraws the
//! current frame over and over, whether or not a new one has arrived. Each
//! turn it looks into the mailbox without waiting, takes a frame if there is
//! one, and sweeps the cube once. When the mailbox is closed and empty it
//! releases the lines and stops.

use crate::cube::{
    all_claimed, frame_steps, release_steps, startup_steps, CubeDriver, HardwareUnavailable,
};
use crate::frame::{blank, dark, Frame};
use crate::lines::{level_after, Line, LineLevels, Step, Timing};
use crate::mailbox::{
    lemma_latest_wins, lemma_sends_keep_accepting, Mailbox, MailboxState, Poll,
};
use vstd::prelude::*;

verus! {

/// What a render pipeline holds, apart from the lines.
pub struct PipelineState {
    /// The frame that the pipeline redraws.
    pub current: Frame,
    /// Whether the pipeline still holds the lines and redraws.
    pub running: bool,
    /// The pauses that the driver puts between its writes.
    pub timing: Timing,
}

impl PipelineState {
    /// The pipeline after one turn: a frame found in the mailbox becomes the
    /// current one; a mailbox that is closed and empty stops the pipeline.
    pub open spec fn after_refresh(self, mailbox: MailboxState) -> PipelineState {
        if !self.running {
            self
        } else {
            match mailbox.poll_result() {
                Poll::Frame(frame) => PipelineState { current: frame, ..self },
                Poll::Empty => self,
                Poll::Closed => PipelineState { running: false, ..self },
            }
        }
    }

    /// The steps of one turn: a sweep of the frame that is current after
    /// the look into the mailbox, or the release of the lines if the
    /// pipeline stops in this turn, or nothing if it had stopped before.
    pub open spec fn refresh_steps(self, mailbox: MailboxState) -> Seq<Step> {
        if !self.running {
            Seq::empty()
        } else if self.after_refresh(mailbox).running {
            frame_steps(self.after_refresh(mailbox).current, self.timing)
        } else {
            release_steps()
        }
    }

    /// The mailbox after one turn: a running pipeline takes what is
    /// pending, and marks the mailbox as abandoned when it stops.
    pub open spec fn mailbox_after_refresh(self, mailbox: MailboxState) -> MailboxState {
        if !self.running {
            mailbox
        } else if self.after_refresh(mailbox).running {
            mailbox.after_poll()
        } else {
            mailbox.after_abandon()
        }
    }
}

/// The display shows the latest: however many frames were sent since the
/// last turn, the next turn sweeps the cube with the last of them, and the
/// turn after that still does.
pub proof fn lemma_display_shows_latest(
    pipeline: PipelineState,
    mailbox: MailboxState,
    frames: Seq<Frame>,
)
    requires
        pipeline.running,
        mailbox.accepting(),
        frames.len() > 0,
    ensures
        ({
            let posted = mailbox.after_sends(frames);
            let shown = pipeline.after_refresh(posted);
            let taken = pipeline.mailbox_after_refresh(posted);
            &&& shown.running
            &&& shown.current == frames.last()
            &&& pipeline.refresh_steps(posted) == frame_steps(frames.last(), pipeline.timing)
            &&& shown.after_refresh(taken).current == frames.last()
            &&& shown.refresh_steps(taken) == frame_steps(frames.last(), pipeline.timing)
        }),
{
    lemma_latest_wins(mailbox, frames);
    lemma_sends_keep_accepting(mailbox, frames);
}

/// The owner of the hardware driver and of the frame on display.
pub struct RenderPipeline {
    driver: CubeDriver,
    current: Frame,
    running: bool,
}

impl View for RenderPipeline {
    type V = PipelineState;

    closed spec fn view(&self) -> PipelineState {
        PipelineState { current: self.current, running: self.running, timing: self.driver.timing() }
    }
}

impl RenderPipeline {
    /// The level last written to each line.
    pub closed spec fn levels(&self) -> LineLevels {
        self.driver.levels()
    }

    /// A pipeline that runs has the lines ready for the next sweep; one
    /// that has stopped has left every line at its inert level.
    pub open spec fn wf(&self) -> bool {
        if self@.running {
            self.levels().idle()
        } else {
            self.levels().all_inert()
        }
    }

    /// Acquires the hardware driver and starts with a dark frame.
    ///
    /// `claimed[i]` says whether the platform handed over the line at
    /// position `i` of the order of claiming, at its inert level. If any is
    /// missing the pipeline does not start, and the error names the first
    /// one. The steps returned are those that clear the shift registers.
    pub fn start(claimed: &[bool; 15], timing: Timing) -> (res: Result<
        (RenderPipeline, Vec<Step>),
        HardwareUnavailable,
    >)
        ensures
            res is Ok <==> all_claimed(*claimed),
            res matches Ok((pipeline, steps)) ==> {
                &&& steps@ == startup_steps(timing)
                &&& pipeline.wf()
                &&& pipeline@ == (PipelineState { current: dark(), running: true, timing })
                &&& forall|line: Line| #[trigger]
                    pipeline.levels().level(line) == level_after(line.inert(), steps@, line)
            },
            res matches Err(e) ==> {
                &&& !claimed[e.line.ord()]
                &&& forall|i: int| 0 <= i < e.line.ord() ==> claimed[i]
            },
    {
        match CubeDriver::try_new(claimed, timing) {
            Ok((driver, steps)) => {
                Ok((RenderPipeline { driver, current: blank(), running: true }, steps))
            },
            Err(e) => Err(e),
        }
    }

    /// Whether the pipeline still holds the lines and redraws.
    pub fn is_running(&self) -> (running: bool)
        ensures
            running == self@.running,
    {
        self.running
    }

    /// The frame that the pipeline redraws.
    pub fn current_frame(&self) -> (frame: Frame)
        ensures
            frame == self@.current,
    {
        self.current
    }

    /// One turn of the pipeline: look into the mailbox, then sweep.
    ///
    /// A frame found in the mailbox becomes the current one. Unless the
    /// mailbox is closed and empty, the steps returned display the current
    /// frame once. If it is, they release the lines, the pipeline stops and
    /// marks the mailbox as abandoned. A pipeline that has stopped does
    /// nothing.
    pub fn refresh(&mut self, mailbox: &mut Mailbox) -> (steps: Vec<Step>)
        requires
            old(self).wf(),
        ensures
            final(self).wf(),
            final(self)@ == old(self)@.after_refresh(old(mailbox)@),
            steps@ == old(self)@.refresh_steps(old(mailbox)@),
            final(mailbox)@ == old(self)@.mailbox_after_refresh(old(mailbox)@),
            final(self).levels().follows(old(self).levels(), steps@),
    {
        if !self.running {
            proof {
                reveal_with_fuel(level_after, 1);
            }
            return Vec::new();
        }
        match mailbox.poll() {
            Poll::Frame(frame) => {
                self.current = frame;
            },
            Poll::Empty => {},
            Poll::Closed => {
                return self.shutdown(mailbox);
            },
        }
        self.driver.write_frame(self.current)
    }

    /// Releases the lines and stops, whatever the mailbox holds, and marks
    /// the mailbox as abandoned, so that sending to it fails from now on.
    /// The steps returned leave the cube dark. A pipeline that has stopped
    /// returns no steps: the lines are released once.
    pub fn shutdown(&mut self, mailbox: &mut Mailbox) -> (steps: Vec<Step>)
        requires
            old(self).wf(),
        ensures
            final(self).wf(),
            final(self)@ == (PipelineState { running: false, ..old(self)@ }),
            final(mailbox)@ == old(mailbox)@.after_abandon(),
            final(self).levels().all_inert(),
            final(self).levels().follows(old(self).levels(), steps@),
            steps@ == if old(self)@.running {
                release_steps()
            } else {
                Seq::<Step>::empty()
            },
    {
        mailbox.abandon();
        if !self.running {
            proof {
                reveal_with_fuel(level_after, 1);
            }
            return Vec::new();
        }
        self.running = false;
        self.driver.release()
    }
}

/// Teardown safety: in a pipeline that has stopped, every line is at its
/// inert level.
pub proof fn lemma_stopped_pipeline_is_dark(pipeline: RenderPipeline, line: Line)
    requires
        pipeline.wf(),
        !pipeline@.running,
    ensures
        pipeline.levels().level(line) == line.inert(),
{
}

} // verus!
