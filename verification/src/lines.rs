//! The output lines of the cube, and the timed steps that drive them.
//!
//! The driver does not touch hardware itself. It computes, for each
//! operation, the exact sequence of [`Step`]s (line writes and pauses) that
//! the shift registers and the layer multiplexer need; whoever owns the
//! physical lines carries them out in order.

use vstd::prelude::*;

verus! {

/// One of the two logic levels of an output line.
#[derive(Clone, Copy, Debug, PartialEq, Eq, Structural)]
pub enum Level {
    Low,
    High,
}

/// An output line of the cube, in the order in which the lines are claimed
/// and released.
#[derive(Clone, Copy, Debug, PartialEq, Eq, Structural)]
pub enum Line {
    /// Bit 0 of the layer multiplexer's select code.
    LayerSelect0,
    /// Bit 1 of the layer multiplexer's select code.
    LayerSelect1,
    /// Bit 2 of the layer multiplexer's select code.
    LayerSelect2,
    /// Output enable of the shift registers. Active low: high blanks the cube.
    OutputEnable,
    /// Parallel data line for column 0.
    Par1,
    /// Parallel data line for column 1.
    Par2,
    /// Parallel data line for column 2.
    Par3,
    /// Parallel data line for column 3.
    Par4,
    /// Parallel data line for column 4.
    Par5,
    /// Parallel data line for column 5.
    Par6,
    /// Parallel data line for column 6.
    Par7,
    /// Parallel data line for column 7.
    Par8,
    /// Latch clock: a rising edge moves the shifted bits to the outputs.
    LatchClock,
    /// Shift clock: a rising edge shifts one row into the registers.
    ShiftClock,
    /// Shift register clear. Active low: low zeroes the registers.
    ShiftClear,
}

/// How many output lines the cube has.
pub const LINE_COUNT: usize = 15;

impl Line {
    /// The position of the line in the order of claiming.
    pub open spec fn ord(self) -> int {
        match self {
            Line::LayerSelect0 => 0,
            Line::LayerSelect1 => 1,
            Line::LayerSelect2 => 2,
            Line::OutputEnable => 3,
            Line::Par1 => 4,
            Line::Par2 => 5,
            Line::Par3 => 6,
            Line::Par4 => 7,
            Line::Par5 => 8,
            Line::Par6 => 9,
            Line::Par7 => 10,
            Line::Par8 => 11,
            Line::LatchClock => 12,
            Line::ShiftClock => 13,
            Line::ShiftClear => 14,
        }
    }

    /// The line at position `i` of the order of claiming.
    pub open spec fn at(i: int) -> Line {
        if i == 0 {
            Line::LayerSelect0
        } else if i == 1 {
            Line::LayerSelect1
        } else if i == 2 {
            Line::LayerSelect2
        } else if i == 3 {
            Line::OutputEnable
        } else if i == 4 {
            Line::Par1
        } else if i == 5 {
            Line::Par2
        } else if i == 6 {
            Line::Par3
        } else if i == 7 {
            Line::Par4
        } else if i == 8 {
            Line::Par5
        } else if i == 9 {
            Line::Par6
        } else if i == 10 {
            Line::Par7
        } else if i == 11 {
            Line::Par8
        } else if i == 12 {
            Line::LatchClock
        } else if i == 13 {
            Line::ShiftClock
        } else {
            Line::ShiftClear
        }
    }

    /// The level at which the line does nothing: output disabled, all else low.
    pub open spec fn inert(self) -> Level {
        if self == Line::OutputEnable {
            Level::High
        } else {
            Level::Low
        }
    }

    /// The position of the line in the order of claiming.
    pub fn index(&self) -> (i: usize)
        ensures
            i == self.ord(),
            i < LINE_COUNT,
            Line::at(i as int) == *self,
    {
        match self {
            Line::LayerSelect0 => 0,
            Line::LayerSelect1 => 1,
            Line::LayerSelect2 => 2,
            Line::OutputEnable => 3,
            Line::Par1 => 4,
            Line::Par2 => 5,
            Line::Par3 => 6,
            Line::Par4 => 7,
            Line::Par5 => 8,
            Line::Par6 => 9,
            Line::Par7 => 10,
            Line::Par8 => 11,
            Line::LatchClock => 12,
            Line::ShiftClock => 13,
            Line::ShiftClear => 14,
        }
    }

    /// Every line, in the order of claiming.
    pub fn all() -> (lines: [Line; 15])
        ensures
            forall|i: int| 0 <= i < 15 ==> lines[i] == Line::at(i) && (#[trigger] lines[i]).ord() == i,
    {
        [
            Line::LayerSelect0,
            Line::LayerSelect1,
            Line::LayerSelect2,
            Line::OutputEnable,
            Line::Par1,
            Line::Par2,
            Line::Par3,
            Line::Par4,
            Line::Par5,
            Line::Par6,
            Line::Par7,
            Line::Par8,
            Line::LatchClock,
            Line::ShiftClock,
            Line::ShiftClear,
        ]
    }

    /// The number under which the platform knows the line.
    pub fn pin(&self) -> (pin: u8)
        ensures
            pin == match *self {
                Line::LayerSelect0 => 6u8,
                Line::LayerSelect1 => 13u8,
                Line::LayerSelect2 => 16u8,
                Line::OutputEnable => 9u8,
                Line::Par1 => 12u8,
                Line::Par2 => 5u8,
                Line::Par3 => 10u8,
                Line::Par4 => 18u8,
                Line::Par5 => 17u8,
                Line::Par6 => 4u8,
                Line::Par7 => 2u8,
                Line::Par8 => 3u8,
                Line::LatchClock => 8u8,
                Line::ShiftClock => 11u8,
                Line::ShiftClear => 7u8,
            },
    {
        match self {
            Line::LayerSelect0 => 6,
            Line::LayerSelect1 => 13,
            Line::LayerSelect2 => 16,
            Line::OutputEnable => 9,
            Line::Par1 => 12,
            Line::Par2 => 5,
            Line::Par3 => 10,
            Line::Par4 => 18,
            Line::Par5 => 17,
            Line::Par6 => 4,
            Line::Par7 => 2,
            Line::Par8 => 3,
            Line::LatchClock => 8,
            Line::ShiftClock => 11,
            Line::ShiftClear => 7,
        }
    }

    /// The level at which the line does nothing.
    pub fn inert_level(&self) -> (level: Level)
        ensures
            level == self.inert(),
    {
        match self {
            Line::OutputEnable => Level::High,
            _ => Level::Low,
        }
    }
}

/// One thing to do to the hardware: set a line, or wait.
#[derive(Clone, Copy, Debug, PartialEq, Eq, Structural)]
pub enum Step {
    /// Drive `line` to `level`.
    Write { line: Line, level: Level },
    /// Do nothing for `micros` microseconds.
    Sleep { micros: u64 },
}

/// The pauses of the protocol, in microseconds.
#[derive(Clone, Copy, Debug, PartialEq, Eq, Structural)]
pub struct Timing {
    /// After the lines are claimed, and around the pulse that clears the registers.
    pub startup_settle_micros: u64,
    /// Between presenting a row and each edge of the shift clock.
    pub row_settle_micros: u64,
    /// Between the steps that latch a layer and select it.
    pub latch_settle_micros: u64,
    /// How long each layer stays lit.
    pub strobe_micros: u64,
}

impl Default for Timing {
    fn default() -> (t: Timing)
        ensures
            t == (Timing {
                startup_settle_micros: 5,
                row_settle_micros: 5,
                latch_settle_micros: 5,
                strobe_micros: 100,
            }),
    {
        Timing {
            startup_settle_micros: 5,
            row_settle_micros: 5,
            latch_settle_micros: 5,
            strobe_micros: 100,
        }
    }
}

/// The level on `line` once `steps` have been carried out, where `start` was
/// its level before: that of the last write to the line, if there is one.
pub open spec fn level_after(start: Level, steps: Seq<Step>, line: Line) -> Level
    decreases steps.len(),
{
    if steps.len() == 0 {
        start
    } else {
        match steps.last() {
            Step::Write { line: written, level } => if written == line {
                level
            } else {
                level_after(start, steps.drop_last(), line)
            },
            Step::Sleep { .. } => level_after(start, steps.drop_last(), line),
        }
    }
}

/// The time that `steps` spend waiting, in microseconds.
pub open spec fn total_micros(steps: Seq<Step>) -> nat
    decreases steps.len(),
{
    if steps.len() == 0 {
        0
    } else {
        total_micros(steps.drop_last()) + match steps.last() {
            Step::Write { .. } => 0nat,
            Step::Sleep { micros } => micros as nat,
        }
    }
}

/// Carrying out `a` and then `b` leaves a line where `b` leaves it,
/// starting from where `a` left it.
pub proof fn lemma_level_after_concat(start: Level, a: Seq<Step>, b: Seq<Step>, line: Line)
    ensures
        level_after(start, a + b, line) == level_after(level_after(start, a, line), b, line),
    decreases b.len(),
{
    if b.len() == 0 {
        assert(a + b =~= a);
    } else {
        assert((a + b).drop_last() =~= a + b.drop_last());
        assert((a + b).last() == b.last());
        lemma_level_after_concat(start, a, b.drop_last(), line);
    }
}

/// The waiting times of two sequences of steps add up.
pub proof fn lemma_total_micros_concat(a: Seq<Step>, b: Seq<Step>)
    ensures
        total_micros(a + b) == total_micros(a) + total_micros(b),
    decreases b.len(),
{
    if b.len() == 0 {
        assert(a + b =~= a);
    } else {
        assert((a + b).drop_last() =~= a + b.drop_last());
        assert((a + b).last() == b.last());
        lemma_total_micros_concat(a, b.drop_last());
    }
}

/// The last level written to each line.
#[derive(Clone, Copy, Debug)]
pub struct LineLevels {
    levels: [Level; 15],
}

impl LineLevels {
    /// The level last written to `line`.
    pub closed spec fn level(&self, line: Line) -> Level {
        self.levels[line.ord()]
    }

    /// Whether `self` is what `before` becomes when `steps` are carried out.
    pub open spec fn follows(&self, before: LineLevels, steps: Seq<Step>) -> bool {
        forall|line: Line| #[trigger]
            self.level(line) == level_after(before.level(line), steps, line)
    }

    /// Whether the lines are as the protocol leaves them between two
    /// layers: both clocks low, so that raising one makes an edge, and the
    /// clear line high, so that the shift registers take rows in.
    pub open spec fn idle(&self) -> bool {
        &&& self.level(Line::ShiftClock) == Level::Low
        &&& self.level(Line::LatchClock) == Level::Low
        &&& self.level(Line::ShiftClear) == Level::High
    }

    /// Whether every line is at its inert level.
    pub open spec fn all_inert(&self) -> bool {
        forall|line: Line| #[trigger] self.level(line) == line.inert()
    }

    /// Every line at its inert level: the state in which the lines are claimed.
    pub fn inert() -> (levels: LineLevels)
        ensures
            levels.all_inert(),
    {
        let mut levels = [Level::Low; 15];
        levels[Line::OutputEnable.index()] = Level::High;
        LineLevels { levels }
    }

    /// The level last written to `line`.
    pub fn get(&self, line: Line) -> (level: Level)
        ensures
            level == self.level(line),
    {
        self.levels[line.index()]
    }

    /// Records that `level` was written to `line`.
    pub fn set(&mut self, line: Line, level: Level)
        ensures
            final(self).level(line) == level,
            forall|other: Line| other != line ==> final(self).level(other) == old(self).level(other),
    {
        self.levels[line.index()] = level;
    }

    /// Records one step.
    pub fn apply(&mut self, step: Step)
        ensures
            final(self).follows(*old(self), seq![step]),
    {
        match step {
            Step::Write { line, level } => {
                self.set(line, level);
            },
            Step::Sleep { .. } => {},
        }
        proof {
            reveal_with_fuel(level_after, 2);
        }
    }

    /// Records a sequence of steps, in order.
    pub fn replay(&mut self, steps: &Vec<Step>)
        ensures
            final(self).follows(*old(self), steps@),
    {
        let mut i: usize = 0;
        while i < steps.len()
            invariant
                i <= steps.len(),
                self.follows(*old(self), steps@.take(i as int)),
            decreases steps.len() - i,
        {
            self.apply(steps[i]);
            proof {
                let done = steps@.take(i as int);
                assert(steps@.take(i + 1) =~= done + seq![steps@[i as int]]);
                assert forall|line: Line| #[trigger]
                    self.level(line) == level_after(
                        old(self).level(line),
                        steps@.take(i + 1),
                        line,
                    ) by {
                    lemma_level_after_concat(
                        old(self).level(line),
                        done,
                        seq![steps@[i as int]],
                        line,
                    );
                }
            }
            i += 1;
        }
        proof {
            assert(steps@.take(steps.len() as int) =~= steps@);
        }
    }
}

/// Steps carried out one after the other are followed one after the other.
pub proof fn lemma_follows_concat(
    first: LineLevels,
    a: Seq<Step>,
    middle: LineLevels,
    b: Seq<Step>,
    last: LineLevels,
)
    requires
        middle.follows(first, a),
        last.follows(middle, b),
    ensures
        last.follows(first, a + b),
{
    assert forall|line: Line| #[trigger]
        last.level(line) == level_after(first.level(line), a + b, line) by {
        lemma_level_after_concat(first.level(line), a, b, line);
        assert(middle.level(line) == level_after(first.level(line), a, line));
    }
}

} // verus!
