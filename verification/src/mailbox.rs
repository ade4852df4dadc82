//! The hand-off between the producer of frames and the render pipeline: a
//! mailbox that holds at most one pending frame.
//!
//! The producer may overwrite what is pending, so the latest frame wins and
//! a fast producer never waits for a slow display. The display takes what
//! is pending without waiting, and redraws what it has when nothing is.

use crate::frame::Frame;
use vstd::prelude::*;

verus! {

/// The render pipeline is gone: nothing will take what is sent.
#[derive(Clone, Copy, Debug, PartialEq, Eq, Structural)]
pub struct PipelineClosed;

/// What the display finds when it looks into the mailbox.
#[derive(Clone, Copy, Debug, PartialEq, Eq)]
pub enum Poll {
    /// A new frame, now taken out of the mailbox.
    Frame(Frame),
    /// Nothing new. The producer may still send.
    Empty,
    /// Nothing new, and the producer has closed the mailbox.
    Closed,
}

/// One thing that happens to a mailbox.
pub enum MailboxOp {
    /// The producer sends a frame.
    Send(Frame),
    /// The display looks for a frame.
    Poll,
    /// The producer closes the mailbox.
    Close,
    /// The display goes away.
    Abandon,
}

/// What a mailbox holds.
pub struct MailboxState {
    /// The frame that waits to be displayed, if there is one.
    pub pending: Option<Frame>,
    /// Whether the producer has closed the mailbox.
    pub closed: bool,
    /// Whether the display has gone away.
    pub abandoned: bool,
}

impl MailboxState {
    /// An open mailbox with nothing in it.
    pub open spec fn fresh() -> MailboxState {
        MailboxState { pending: None, closed: false, abandoned: false }
    }

    /// Whether a frame that is sent now will be kept.
    pub open spec fn accepting(self) -> bool {
        !self.closed && !self.abandoned
    }

    /// The mailbox after a frame was sent: the frame replaces what was
    /// pending, unless the mailbox no longer accepts anything.
    pub open spec fn after_send(self, frame: Frame) -> MailboxState {
        if self.accepting() {
            MailboxState { pending: Some(frame), ..self }
        } else {
            self
        }
    }

    /// What the display finds: the pending frame if there is one, and
    /// otherwise whether more may come.
    pub open spec fn poll_result(self) -> Poll {
        match self.pending {
            Some(frame) => Poll::Frame(frame),
            None => if self.closed {
                Poll::Closed
            } else {
                Poll::Empty
            },
        }
    }

    /// The mailbox after the display has looked: nothing is pending.
    pub open spec fn after_poll(self) -> MailboxState {
        MailboxState { pending: None, ..self }
    }

    /// The mailbox after the producer has closed it.
    pub open spec fn after_close(self) -> MailboxState {
        MailboxState { closed: true, ..self }
    }

    /// The mailbox after the display has gone away.
    pub open spec fn after_abandon(self) -> MailboxState {
        MailboxState { abandoned: true, ..self }
    }

    /// The mailbox after one operation.
    pub open spec fn after(self, op: MailboxOp) -> MailboxState {
        match op {
            MailboxOp::Send(frame) => self.after_send(frame),
            MailboxOp::Poll => self.after_poll(),
            MailboxOp::Close => self.after_close(),
            MailboxOp::Abandon => self.after_abandon(),
        }
    }

    /// The mailbox after a sequence of operations, in order.
    pub open spec fn after_all(self, ops: Seq<MailboxOp>) -> MailboxState
        decreases ops.len(),
    {
        if ops.len() == 0 {
            self
        } else {
            self.after_all(ops.drop_last()).after(ops.last())
        }
    }

    /// The mailbox after the frames were sent one after the other, with no
    /// poll in between.
    pub open spec fn after_sends(self, frames: Seq<Frame>) -> MailboxState
        decreases frames.len(),
    {
        if frames.len() == 0 {
            self
        } else {
            self.after_sends(frames.drop_last()).after_send(frames.last())
        }
    }
}

/// Sending never closes a mailbox, nor makes the display go away.
pub proof fn lemma_sends_keep_accepting(m: MailboxState, frames: Seq<Frame>)
    ensures
        m.after_sends(frames).closed == m.closed,
        m.after_sends(frames).abandoned == m.abandoned,
    decreases frames.len(),
{
    if frames.len() > 0 {
        lemma_sends_keep_accepting(m, frames.drop_last());
    }
}

/// Latest wins: however many frames were sent since the display last
/// looked, it finds the last of them, and after that none of the earlier.
pub proof fn lemma_latest_wins(m: MailboxState, frames: Seq<Frame>)
    requires
        m.accepting(),
        frames.len() > 0,
    ensures
        m.after_sends(frames).poll_result() == Poll::Frame(frames.last()),
        !(m.after_sends(frames).after_poll().poll_result() is Frame),
{
    lemma_sends_keep_accepting(m, frames.drop_last());
}

/// What is pending in a mailbox that started out empty was sent to it.
pub proof fn lemma_pending_was_sent(ops: Seq<MailboxOp>)
    ensures
        MailboxState::fresh().after_all(ops).pending matches Some(frame) ==> exists|j: int|
            0 <= j < ops.len() && ops[j] == MailboxOp::Send(frame),
    decreases ops.len(),
{
    if ops.len() > 0 {
        let before = MailboxState::fresh().after_all(ops.drop_last());
        let now = before.after(ops.last());
        lemma_pending_was_sent(ops.drop_last());
        if let Some(frame) = now.pending {
            match ops.last() {
                MailboxOp::Send(sent) => {
                    if before.accepting() {
                        assert(ops[ops.len() - 1] == MailboxOp::Send(frame));
                    } else {
                        let j = choose|j: int|
                            0 <= j < ops.drop_last().len() && ops.drop_last()[j] == MailboxOp::Send(
                                frame,
                            );
                        assert(ops[j] == MailboxOp::Send(frame));
                    }
                },
                MailboxOp::Poll => {},
                MailboxOp::Close => {
                    let j = choose|j: int|
                        0 <= j < ops.drop_last().len() && ops.drop_last()[j] == MailboxOp::Send(
                            frame,
                        );
                    assert(ops[j] == MailboxOp::Send(frame));
                },
                MailboxOp::Abandon => {
                    let j = choose|j: int|
                        0 <= j < ops.drop_last().len() && ops.drop_last()[j] == MailboxOp::Send(
                            frame,
                        );
                    assert(ops[j] == MailboxOp::Send(frame));
                },
            }
        }
    }
}

/// The display never sees a frame that was not sent: whatever happened to
/// a mailbox that started out empty, a frame found by the poll at position
/// `i` was sent at an earlier position.
pub proof fn lemma_only_sent_frames_are_seen(ops: Seq<MailboxOp>, i: int, frame: Frame)
    requires
        0 <= i < ops.len(),
        ops[i] is Poll,
        MailboxState::fresh().after_all(ops.take(i)).poll_result() == Poll::Frame(frame),
    ensures
        exists|j: int| 0 <= j < i && ops[j] == MailboxOp::Send(frame),
{
    lemma_pending_was_sent(ops.take(i));
    let j = choose|j: int| 0 <= j < ops.take(i).len() && ops.take(i)[j] == MailboxOp::Send(frame);
    assert(ops[j] == MailboxOp::Send(frame));
}

/// A single-slot mailbox for frames.
pub struct Mailbox {
    slot: Option<Frame>,
    closed: bool,
    abandoned: bool,
}

impl View for Mailbox {
    type V = MailboxState;

    closed spec fn view(&self) -> MailboxState {
        MailboxState { pending: self.slot, closed: self.closed, abandoned: self.abandoned }
    }
}

impl Mailbox {
    /// An open mailbox with nothing in it.
    pub fn new() -> (mailbox: Mailbox)
        ensures
            mailbox@ == MailboxState::fresh(),
    {
        Mailbox { slot: None, closed: false, abandoned: false }
    }

    /// Posts a frame without waiting, in place of whatever is pending.
    ///
    /// Fails, and posts nothing, if the display has gone away or the
    /// mailbox was closed.
    pub fn send(&mut self, frame: Frame) -> (res: Result<(), PipelineClosed>)
        ensures
            res is Ok <==> old(self)@.accepting(),
            final(self)@ == old(self)@.after_send(frame),
    {
        if self.closed || self.abandoned {
            Err(PipelineClosed)
        } else {
            self.slot = Some(frame);
            Ok(())
        }
    }

    /// Takes the pending frame, if there is one, without waiting.
    pub fn poll(&mut self) -> (found: Poll)
        ensures
            found == old(self)@.poll_result(),
            final(self)@ == old(self)@.after_poll(),
    {
        match self.slot {
            Some(frame) => {
                self.slot = None;
                Poll::Frame(frame)
            },
            None => {
                if self.closed {
                    Poll::Closed
                } else {
                    Poll::Empty
                }
            },
        }
    }

    /// Closes the mailbox from the producer's side. What is pending stays
    /// for the display to take.
    pub fn close(&mut self)
        ensures
            final(self)@ == old(self)@.after_close(),
    {
        self.closed = true;
    }

    /// Marks the display as gone: from now on sending fails.
    pub fn abandon(&mut self)
        ensures
            final(self)@ == old(self)@.after_abandon(),
    {
        self.abandoned = true;
    }

    /// Whether the producer has closed the mailbox.
    pub fn is_closed(&self) -> (closed: bool)
        ensures
            closed == self@.closed,
    {
        self.closed
    }

    /// Whether the display has gone away.
    pub fn is_abandoned(&self) -> (abandoned: bool)
        ensures
            abandoned == self@.abandoned,
    {
        self.abandoned
    }
}

} // verus!
