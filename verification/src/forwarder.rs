//! The rate-limited forwarder: from a source of frames to the mailbox of
//! the render pipeline, at a fixed cadence, until cancelled.

use crate::frame::Frame;
use crate::mailbox::{Mailbox, MailboxState};
use crate::rotation::{transform, transformed, Rotation};
use std::sync::atomic::AtomicBool;
use std::sync::atomic::Ordering;
use vstd::prelude::*;

verus! {

/// What the caller of the forwarder does next.
#[derive(Clone, Copy, Debug, PartialEq, Eq, Structural)]
pub enum Pace {
    /// Wait this long, then hand over the next frame.
    Wait { micros: u64 },
    /// Stop: the forwarder is done and has closed the mailbox.
    Stop,
}

/// What a forwarder is set up to do, and whether it is done.
pub struct ForwarderState {
    /// How frames are turned before they are sent.
    pub rotation: Rotation,
    /// Whether frames are inverted, after the rotation.
    pub invert: bool,
    /// The pause after each frame, in microseconds.
    pub delay_micros: u64,
    /// Whether the forwarder has stopped for good.
    pub stopped: bool,
}

impl ForwarderState {
    /// Whether the forwarder passes on a frame in this turn: it has not
    /// stopped, it is not cancelled, there is a frame, and the mailbox
    /// accepts it.
    pub open spec fn passes_on(
        self,
        cancelled: bool,
        produced: Option<Frame>,
        mailbox: MailboxState,
    ) -> bool {
        !self.stopped && !cancelled && produced is Some && mailbox.accepting()
    }

    /// The forwarder after one turn.
    pub open spec fn after_turn(
        self,
        cancelled: bool,
        produced: Option<Frame>,
        mailbox: MailboxState,
    ) -> ForwarderState {
        ForwarderState { stopped: !self.passes_on(cancelled, produced, mailbox), ..self }
    }

    /// The mailbox after one turn: it holds the transformed frame if one
    /// was passed on, and is closed otherwise.
    pub open spec fn mailbox_after_turn(
        self,
        cancelled: bool,
        produced: Option<Frame>,
        mailbox: MailboxState,
    ) -> MailboxState {
        if self.passes_on(cancelled, produced, mailbox) {
            mailbox.after_send(transformed(self.rotation, self.invert, produced->0))
        } else {
            mailbox.after_close()
        }
    }

    /// The forwarder after a sequence of turns. Each turn is a pair: whether
    /// the cancellation flag was set, and the frame that the source produced.
    pub open spec fn after_turns(
        self,
        turns: Seq<(bool, Option<Frame>)>,
        mailbox: MailboxState,
    ) -> ForwarderState
        decreases turns.len(),
    {
        if turns.len() == 0 {
            self
        } else {
            self.after_turns(turns.drop_last(), mailbox).after_turn(
                turns.last().0,
                turns.last().1,
                self.mailbox_after_turns(turns.drop_last(), mailbox),
            )
        }
    }

    /// The mailbox after a sequence of turns in which nobody else touches it.
    pub open spec fn mailbox_after_turns(
        self,
        turns: Seq<(bool, Option<Frame>)>,
        mailbox: MailboxState,
    ) -> MailboxState
        decreases turns.len(),
    {
        if turns.len() == 0 {
            mailbox
        } else {
            self.after_turns(turns.drop_last(), mailbox).mailbox_after_turn(
                turns.last().0,
                turns.last().1,
                self.mailbox_after_turns(turns.drop_last(), mailbox),
            )
        }
    }
}

/// A forwarder that has stopped stays stopped and sends nothing more,
/// whatever it is handed.
pub proof fn lemma_stopped_sends_nothing(
    state: ForwarderState,
    turns: Seq<(bool, Option<Frame>)>,
    mailbox: MailboxState,
)
    requires
        state.stopped,
    ensures
        state.after_turns(turns, mailbox).stopped,
        state.mailbox_after_turns(turns, mailbox).pending == mailbox.pending,
    decreases turns.len(),
{
    if turns.len() > 0 {
        lemma_stopped_sends_nothing(state, turns.drop_last(), mailbox);
    }
}

/// Cancellation: once a turn has seen the flag set, no further frame is
/// sent. What is pending after any number of later turns is what was
/// pending when the flag was seen, and the mailbox is closed.
pub proof fn lemma_cancelled_sends_nothing(
    state: ForwarderState,
    produced: Option<Frame>,
    later: Seq<(bool, Option<Frame>)>,
    mailbox: MailboxState,
)
    ensures
        ({
            let stopped = state.after_turn(true, produced, mailbox);
            let closed = state.mailbox_after_turn(true, produced, mailbox);
            &&& stopped.stopped
            &&& closed.closed
            &&& closed.pending == mailbox.pending
            &&& stopped.after_turns(later, closed).stopped
            &&& stopped.mailbox_after_turns(later, closed).pending == mailbox.pending
        }),
{
    let stopped = state.after_turn(true, produced, mailbox);
    let closed = state.mailbox_after_turn(true, produced, mailbox);
    lemma_stopped_sends_nothing(stopped, later, closed);
}

/// Bridges a source of frames to the render pipeline.
pub struct Forwarder {
    rotation: Rotation,
    invert: bool,
    delay_micros: u64,
    stopped: bool,
}

impl View for Forwarder {
    type V = ForwarderState;

    closed spec fn view(&self) -> ForwarderState {
        ForwarderState {
            rotation: self.rotation,
            invert: self.invert,
            delay_micros: self.delay_micros,
            stopped: self.stopped,
        }
    }
}

impl Forwarder {
    /// A forwarder that turns each frame by `rotation`, inverts it if
    /// `invert`, and leaves `delay_micros` between frames.
    pub fn new(rotation: Rotation, invert: bool, delay_micros: u64) -> (forwarder: Forwarder)
        ensures
            forwarder@ == (ForwarderState { rotation, invert, delay_micros, stopped: false }),
    {
        Forwarder { rotation, invert, delay_micros, stopped: false }
    }

    /// Whether the forwarder has stopped for good.
    pub fn is_stopped(&self) -> (stopped: bool)
        ensures
            stopped == self@.stopped,
    {
        self.stopped
    }

    /// One turn of the forwarder, for the flag as it is read now.
    ///
    /// Reads the shared cancellation flag, then does what [`Forwarder::turn`]
    /// does for the value read. The flag is only read, never written.
    pub fn forward(
        &mut self,
        stop_token: &AtomicBool,
        produced: Option<Frame>,
        mailbox: &mut Mailbox,
    ) -> (pace: Pace)
        ensures
            exists|cancelled: bool|
                {
                    &&& final(self)@ == #[trigger] old(self)@.after_turn(
                        cancelled,
                        produced,
                        old(mailbox)@,
                    )
                    &&& final(mailbox)@ == old(self)@.mailbox_after_turn(
                        cancelled,
                        produced,
                        old(mailbox)@,
                    )
                    &&& pace == if old(self)@.passes_on(cancelled, produced, old(mailbox)@) {
                        Pace::Wait { micros: old(self)@.delay_micros }
                    } else {
                        Pace::Stop
                    }
                },
            final(self)@.stopped ==> pace == Pace::Stop && final(mailbox)@.closed,
            old(self)@.stopped ==> final(self)@.stopped && final(mailbox)@.pending == old(
                mailbox,
            )@.pending,
    {
        let cancelled = stop_token.load(Ordering::Relaxed);
        self.turn(cancelled, produced, mailbox)
    }

    /// One turn of the forwarder.
    ///
    /// `cancelled` is the cancellation flag as read at the start of the
    /// turn, `produced` the next frame of the source, or `None` when the
    /// source is exhausted. The flag is looked at first: if it is set
    /// nothing is sent. Otherwise the frame is rotated, then inverted if
    /// asked, and posted to the mailbox; the caller then waits for the
    /// configured delay. If nothing could be sent the forwarder closes the
    /// mailbox, so that the pipeline can come to an end, and stops for good.
    pub fn turn(
        &mut self,
        cancelled: bool,
        produced: Option<Frame>,
        mailbox: &mut Mailbox,
    ) -> (pace: Pace)
        ensures
            final(self)@ == old(self)@.after_turn(cancelled, produced, old(mailbox)@),
            final(mailbox)@ == old(self)@.mailbox_after_turn(cancelled, produced, old(mailbox)@),
            pace == if old(self)@.passes_on(cancelled, produced, old(mailbox)@) {
                Pace::Wait { micros: old(self)@.delay_micros }
            } else {
                Pace::Stop
            },
    {
        if !self.stopped && !cancelled {
            match produced {
                Some(frame) => {
                    let shown = transform(self.rotation, self.invert, &frame);
                    match mailbox.send(shown) {
                        Ok(()) => {
                            return Pace::Wait { micros: self.delay_micros };
                        },
                        Err(_) => {},
                    }
                },
                None => {},
            }
        }
        self.stopped = true;
        mailbox.close();
        Pace::Stop
    }
}

} // verus!
