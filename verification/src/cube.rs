//! The hardware driver: the shift-register and multiplexer protocol.
//!
//! A frame reaches the cube layer by layer. The eight rows of a layer are
//! presented on the eight parallel data lines and clocked into the shift
//! registers one after the other; then the output is blanked, the latch
//! clock moves the sixty-four bits to the outputs while the layer select
//! lines switch to the layer, and the output is enabled again for the time
//! of one strobe.

use crate::frame::{bit, lemma_bit_weights, Frame, Layer};
use crate::lines::{
    lemma_follows_concat, lemma_level_after_concat, lemma_total_micros_concat, level_after,
    total_micros, Level, Line, LineLevels, Step, Timing,
};
use vstd::prelude::*;

verus! {

/// The level that shows a bit: high for set, low for clear.
pub open spec fn level_of(on: bool) -> Level {
    if on {
        Level::High
    } else {
        Level::Low
    }
}

/// The level for a line that carries the bit of `value` selected by `pow2`.
pub fn check_bit(value: u8, pow2: u8) -> (level: Level)
    ensures
        level == level_of(value & pow2 != 0),
{
    if value & pow2 == 0 {
        Level::Low
    } else {
        Level::High
    }
}

/// The steps that present one row on the data lines and clock it in.
pub open spec fn row_steps(pattern: u8, t: Timing) -> Seq<Step> {
    seq![
        Step::Write { line: Line::Par1, level: level_of(bit(pattern, 0)) },
        Step::Write { line: Line::Par2, level: level_of(bit(pattern, 1)) },
        Step::Write { line: Line::Par3, level: level_of(bit(pattern, 2)) },
        Step::Write { line: Line::Par4, level: level_of(bit(pattern, 3)) },
        Step::Write { line: Line::Par5, level: level_of(bit(pattern, 4)) },
        Step::Write { line: Line::Par6, level: level_of(bit(pattern, 5)) },
        Step::Write { line: Line::Par7, level: level_of(bit(pattern, 6)) },
        Step::Write { line: Line::Par8, level: level_of(bit(pattern, 7)) },
        Step::Sleep { micros: t.row_settle_micros },
        Step::Write { line: Line::ShiftClock, level: Level::High },
        Step::Sleep { micros: t.row_settle_micros },
        Step::Write { line: Line::ShiftClock, level: Level::Low },
        Step::Sleep { micros: t.row_settle_micros },
    ]
}

/// The steps that clock in the first `n` rows of a layer, row 0 first.
pub open spec fn rows_steps(rows: Layer, n: int, t: Timing) -> Seq<Step>
    decreases n,
{
    if n <= 0 {
        Seq::empty()
    } else {
        rows_steps(rows, n - 1, t) + row_steps(rows[n - 1], t)
    }
}

/// The steps that drive the layer select lines to the low three bits of `layer`.
pub open spec fn select_steps(layer: u8) -> Seq<Step> {
    seq![
        Step::Write { line: Line::LayerSelect0, level: level_of(bit(layer, 0)) },
        Step::Write { line: Line::LayerSelect1, level: level_of(bit(layer, 1)) },
        Step::Write { line: Line::LayerSelect2, level: level_of(bit(layer, 2)) },
    ]
}

/// The steps that show what was shifted in: blank the output, raise the
/// latch clock and switch the layer, then relax the clock and enable the
/// output.
pub open spec fn latch_steps(layer: u8, t: Timing) -> Seq<Step> {
    seq![
        Step::Write { line: Line::OutputEnable, level: Level::High },
        Step::Sleep { micros: t.latch_settle_micros },
        Step::Write { line: Line::LatchClock, level: Level::High },
        Step::Write { line: Line::LayerSelect0, level: level_of(bit(layer, 0)) },
        Step::Write { line: Line::LayerSelect1, level: level_of(bit(layer, 1)) },
        Step::Write { line: Line::LayerSelect2, level: level_of(bit(layer, 2)) },
        Step::Sleep { micros: t.latch_settle_micros },
        Step::Write { line: Line::LatchClock, level: Level::Low },
        Step::Write { line: Line::OutputEnable, level: Level::Low },
        Step::Sleep { micros: t.latch_settle_micros },
    ]
}

/// The steps that write one layer: its eight rows, then the latch.
pub open spec fn layer_steps(layer: u8, rows: Layer, t: Timing) -> Seq<Step> {
    rows_steps(rows, 8, t) + latch_steps(layer, t)
}

/// The steps that write one layer and leave it lit for one strobe.
pub open spec fn strobe_steps(layer: u8, rows: Layer, t: Timing) -> Seq<Step> {
    layer_steps(layer, rows, t) + seq![Step::Sleep { micros: t.strobe_micros }]
}

/// The steps that strobe the first `n` layers of a frame, layer 0 first.
pub open spec fn sweep_steps(frame: Frame, n: int, t: Timing) -> Seq<Step>
    decreases n,
{
    if n <= 0 {
        Seq::empty()
    } else {
        sweep_steps(frame, n - 1, t) + strobe_steps((n - 1) as u8, frame[n - 1], t)
    }
}

/// The steps that display a frame once: one sweep over all eight layers.
pub open spec fn frame_steps(frame: Frame, t: Timing) -> Seq<Step> {
    sweep_steps(frame, 8, t)
}

/// The steps that follow the claiming of the lines: let the levels settle,
/// then pulse the clear line low to zero the shift registers.
pub open spec fn startup_steps(t: Timing) -> Seq<Step> {
    seq![
        Step::Sleep { micros: t.startup_settle_micros },
        Step::Write { line: Line::ShiftClear, level: Level::Low },
        Step::Sleep { micros: t.startup_settle_micros },
        Step::Write { line: Line::ShiftClear, level: Level::High },
        Step::Sleep { micros: t.startup_settle_micros },
    ]
}

/// The steps that leave the cube dark: every line to its inert level.
pub open spec fn release_steps() -> Seq<Step> {
    seq![
        Step::Write { line: Line::LayerSelect0, level: Level::Low },
        Step::Write { line: Line::LayerSelect1, level: Level::Low },
        Step::Write { line: Line::LayerSelect2, level: Level::Low },
        Step::Write { line: Line::OutputEnable, level: Level::High },
        Step::Write { line: Line::Par1, level: Level::Low },
        Step::Write { line: Line::Par2, level: Level::Low },
        Step::Write { line: Line::Par3, level: Level::Low },
        Step::Write { line: Line::Par4, level: Level::Low },
        Step::Write { line: Line::Par5, level: Level::Low },
        Step::Write { line: Line::Par6, level: Level::Low },
        Step::Write { line: Line::Par7, level: Level::Low },
        Step::Write { line: Line::Par8, level: Level::Low },
        Step::Write { line: Line::LatchClock, level: Level::Low },
        Step::Write { line: Line::ShiftClock, level: Level::Low },
        Step::Write { line: Line::ShiftClear, level: Level::Low },
    ]
}

/// Selecting a layer leaves the select lines at the low three bits of the
/// layer; no other line is touched.
pub proof fn lemma_select_leaves_lines(start: Level, layer: u8, line: Line)
    ensures
        level_after(start, select_steps(layer), line) == match line {
            Line::LayerSelect0 => level_of(bit(layer, 0)),
            Line::LayerSelect1 => level_of(bit(layer, 1)),
            Line::LayerSelect2 => level_of(bit(layer, 2)),
            _ => start,
        },
{
    reveal_with_fuel(level_after, 4);
}

/// Teardown leaves every line at its inert level, whatever its level was.
pub proof fn lemma_release_leaves_line_inert(start: Level, line: Line)
    ensures
        level_after(start, release_steps(), line) == line.inert(),
{
    reveal_with_fuel(level_after, 16);
}

/// Clocking in a row leaves the data lines at the bits of the row and the
/// shift clock low; no other line is touched.
pub proof fn lemma_row_leaves_lines(start: Level, pattern: u8, t: Timing, line: Line)
    ensures
        level_after(start, row_steps(pattern, t), line) == match line {
            Line::Par1 => level_of(bit(pattern, 0)),
            Line::Par2 => level_of(bit(pattern, 1)),
            Line::Par3 => level_of(bit(pattern, 2)),
            Line::Par4 => level_of(bit(pattern, 3)),
            Line::Par5 => level_of(bit(pattern, 4)),
            Line::Par6 => level_of(bit(pattern, 5)),
            Line::Par7 => level_of(bit(pattern, 6)),
            Line::Par8 => level_of(bit(pattern, 7)),
            Line::ShiftClock => Level::Low,
            _ => start,
        },
{
    reveal_with_fuel(level_after, 14);
}

/// Latching leaves the latch clock low, the output enabled and the select
/// lines at the low three bits of the layer; no other line is touched.
pub proof fn lemma_latch_leaves_lines(start: Level, layer: u8, t: Timing, line: Line)
    ensures
        level_after(start, latch_steps(layer, t), line) == match line {
            Line::LayerSelect0 => level_of(bit(layer, 0)),
            Line::LayerSelect1 => level_of(bit(layer, 1)),
            Line::LayerSelect2 => level_of(bit(layer, 2)),
            Line::OutputEnable => Level::Low,
            Line::LatchClock => Level::Low,
            _ => start,
        },
{
    reveal_with_fuel(level_after, 11);
}

/// Writing a layer leaves the clocks low, the output enabled, the select
/// lines at the low three bits of the layer and the data lines at the
/// last row; the clear line is not touched.
pub proof fn lemma_layer_leaves_lines(start: Level, layer: u8, rows: Layer, t: Timing, line: Line)
    ensures
        level_after(start, layer_steps(layer, rows, t), line) == match line {
            Line::LayerSelect0 => level_of(bit(layer, 0)),
            Line::LayerSelect1 => level_of(bit(layer, 1)),
            Line::LayerSelect2 => level_of(bit(layer, 2)),
            Line::OutputEnable => Level::Low,
            Line::Par1 => level_of(bit(rows[7], 0)),
            Line::Par2 => level_of(bit(rows[7], 1)),
            Line::Par3 => level_of(bit(rows[7], 2)),
            Line::Par4 => level_of(bit(rows[7], 3)),
            Line::Par5 => level_of(bit(rows[7], 4)),
            Line::Par6 => level_of(bit(rows[7], 5)),
            Line::Par7 => level_of(bit(rows[7], 6)),
            Line::Par8 => level_of(bit(rows[7], 7)),
            Line::LatchClock => Level::Low,
            Line::ShiftClock => Level::Low,
            Line::ShiftClear => start,
        },
{
    let early = level_after(start, rows_steps(rows, 7, t), line);
    let shifted = level_after(start, rows_steps(rows, 8, t), line);
    lemma_level_after_concat(start, rows_steps(rows, 8, t), latch_steps(layer, t), line);
    lemma_level_after_concat(start, rows_steps(rows, 7, t), row_steps(rows[7], t), line);
    lemma_row_leaves_lines(early, rows[7], t, line);
    lemma_latch_leaves_lines(shifted, layer, t, line);
    if line == Line::ShiftClear {
        lemma_rows_leave_other_lines(start, rows, 7, t, line);
    }
}

/// Clocking in rows touches only the data lines and the shift clock.
pub proof fn lemma_rows_leave_other_lines(start: Level, rows: Layer, n: int, t: Timing, line: Line)
    requires
        line == Line::LayerSelect0 || line == Line::LayerSelect1 || line == Line::LayerSelect2
            || line == Line::OutputEnable || line == Line::LatchClock || line == Line::ShiftClear,
    ensures
        level_after(start, rows_steps(rows, n, t), line) == start,
    decreases n,
{
    if n > 0 {
        lemma_rows_leave_other_lines(start, rows, n - 1, t, line);
        lemma_level_after_concat(
            start,
            rows_steps(rows, n - 1, t),
            row_steps(rows[n - 1], t),
            line,
        );
        lemma_row_leaves_lines(start, rows[n - 1], t, line);
    }
}

/// Writing and strobing a layer leaves idle lines idle.
pub proof fn lemma_strobe_keeps_idle(
    before: LineLevels,
    layer: u8,
    rows: Layer,
    t: Timing,
    after: LineLevels,
)
    requires
        after.follows(before, strobe_steps(layer, rows, t)),
    ensures
        after.level(Line::ShiftClock) == Level::Low,
        after.level(Line::LatchClock) == Level::Low,
        after.level(Line::ShiftClear) == before.level(Line::ShiftClear),
        before.idle() ==> after.idle(),
{
    let hold = seq![Step::Sleep { micros: t.strobe_micros }];
    assert forall|line: Line|
        level_after(before.level(line), strobe_steps(layer, rows, t), line) == level_after(
            before.level(line),
            layer_steps(layer, rows, t),
            line,
        ) by {
        lemma_level_after_concat(before.level(line), layer_steps(layer, rows, t), hold, line);
        reveal_with_fuel(level_after, 2);
    }
    lemma_layer_leaves_lines(before.level(Line::ShiftClock), layer, rows, t, Line::ShiftClock);
    lemma_layer_leaves_lines(before.level(Line::LatchClock), layer, rows, t, Line::LatchClock);
    lemma_layer_leaves_lines(before.level(Line::ShiftClear), layer, rows, t, Line::ShiftClear);
}

/// The time that the steps of `n` rows spend waiting.
pub proof fn lemma_rows_duration(rows: Layer, n: int, t: Timing)
    requires
        0 <= n,
    ensures
        total_micros(rows_steps(rows, n, t)) == n * (3 * t.row_settle_micros),
    decreases n,
{
    if n > 0 {
        lemma_rows_duration(rows, n - 1, t);
        lemma_total_micros_concat(rows_steps(rows, n - 1, t), row_steps(rows[n - 1], t));
        assert(total_micros(row_steps(rows[n - 1], t)) == 3 * t.row_settle_micros) by {
            reveal_with_fuel(total_micros, 14);
        }
        assert(n * (3 * t.row_settle_micros) == (n - 1) * (3 * t.row_settle_micros) + 3
            * t.row_settle_micros) by (nonlinear_arith);
    } else {
        assert(0 * (3 * t.row_settle_micros) == 0);
    }
}

/// The time for which writing and strobing one layer waits: three pauses
/// for each of the eight rows, three around the latch, and the strobe.
pub open spec fn layer_micros(t: Timing) -> int {
    24 * t.row_settle_micros + 3 * t.latch_settle_micros + t.strobe_micros
}

/// Every layer takes the same time, whatever it shows.
pub proof fn lemma_strobe_duration(layer: u8, rows: Layer, t: Timing)
    ensures
        total_micros(strobe_steps(layer, rows, t)) == layer_micros(t),
{
    let hold = seq![Step::Sleep { micros: t.strobe_micros }];
    lemma_rows_duration(rows, 8, t);
    lemma_total_micros_concat(layer_steps(layer, rows, t), hold);
    lemma_total_micros_concat(rows_steps(rows, 8, t), latch_steps(layer, t));
    assert(total_micros(latch_steps(layer, t)) == 3 * t.latch_settle_micros) by {
        reveal_with_fuel(total_micros, 11);
    }
    assert(total_micros(hold) == t.strobe_micros) by {
        reveal_with_fuel(total_micros, 2);
    }
}

/// The time that the first `n` layers of a sweep take.
pub proof fn lemma_sweep_duration(frame: Frame, n: int, t: Timing)
    requires
        0 <= n,
    ensures
        total_micros(sweep_steps(frame, n, t)) == n * layer_micros(t),
    decreases n,
{
    if n > 0 {
        lemma_sweep_duration(frame, n - 1, t);
        lemma_total_micros_concat(
            sweep_steps(frame, n - 1, t),
            strobe_steps((n - 1) as u8, frame[n - 1], t),
        );
        lemma_strobe_duration((n - 1) as u8, frame[n - 1], t);
        assert(n * layer_micros(t) == (n - 1) * layer_micros(t) + layer_micros(t))
            by (nonlinear_arith);
    } else {
        assert(0 * layer_micros(t) == 0);
    }
}

/// Displaying a frame always takes the time of eight layers: no frame is
/// drawn faster or slower than another.
pub proof fn lemma_frame_duration(frame: Frame, t: Timing)
    ensures
        total_micros(frame_steps(frame, t)) == 8 * layer_micros(t),
{
    lemma_sweep_duration(frame, 8, t);
}

/// Whether every line was claimed.
pub open spec fn all_claimed(claimed: [bool; 15]) -> bool {
    forall|i: int| 0 <= i < 15 ==> claimed[i]
}

/// The hardware cannot be used: `line` is the first that could not be claimed.
#[derive(Clone, Copy, Debug, PartialEq, Eq, Structural)]
pub struct HardwareUnavailable {
    pub line: Line,
}

/// Handles all bit-banging and state for driving the cube.
pub struct CubeDriver {
    levels: LineLevels,
    timing: Timing,
}

impl CubeDriver {
    /// The level last written to each line.
    pub closed spec fn levels(&self) -> LineLevels {
        self.levels
    }

    /// The pauses that the driver puts between its writes.
    pub closed spec fn timing(&self) -> Timing {
        self.timing
    }

    /// Takes charge of the output lines.
    ///
    /// `claimed[i]` says whether the platform handed over the line at
    /// position `i` of the order of claiming, at its inert level. If any
    /// is missing the hardware is unavailable, and the error names the first
    /// one. Otherwise the driver starts from the inert levels and returns
    /// the steps that clear the shift registers.
    pub fn try_new(claimed: &[bool; 15], timing: Timing) -> (res: Result<
        (CubeDriver, Vec<Step>),
        HardwareUnavailable,
    >)
        ensures
            res is Ok <==> all_claimed(*claimed),
            res matches Ok((driver, steps)) ==> {
                &&& steps@ == startup_steps(timing)
                &&& driver.timing() == timing
                &&& driver.levels().idle()
                &&& forall|line: Line| #[trigger]
                    driver.levels().level(line) == level_after(line.inert(), steps@, line)
            },
            res matches Err(e) ==> {
                &&& !claimed[e.line.ord()]
                &&& forall|i: int| 0 <= i < e.line.ord() ==> claimed[i]
            },
    {
        let lines = Line::all();
        let mut i: usize = 0;
        while i < 15
            invariant
                i <= 15,
                forall|j: int| 0 <= j < 15 ==> (#[trigger] lines[j]).ord() == j,
                forall|j: int| 0 <= j < i ==> claimed[j],
            decreases 15 - i,
        {
            if !claimed[i] {
                return Err(HardwareUnavailable { line: lines[i] });
            }
            i += 1;
        }

        let mut driver = CubeDriver { levels: LineLevels::inert(), timing };
        let ghost inert = driver.levels;
        let mut steps: Vec<Step> = Vec::new();

        // Wait for initial levels to apply and settle
        pause(&mut steps, timing.startup_settle_micros);

        // Clear the buffers
        driver.drive(&mut steps, Line::ShiftClear, Level::Low);
        pause(&mut steps, timing.startup_settle_micros);
        driver.drive(&mut steps, Line::ShiftClear, Level::High);
        pause(&mut steps, timing.startup_settle_micros);

        proof {
            assert(steps@ =~= startup_steps(timing));
            reveal_with_fuel(level_after, 6);
            assert forall|line: Line| #[trigger]
                driver.levels().level(line) == level_after(line.inert(), steps@, line) by {
                assert(inert.level(line) == line.inert());
            }
            assert(inert.level(Line::ShiftClock) == Line::ShiftClock.inert());
            assert(inert.level(Line::LatchClock) == Line::LatchClock.inert());
        }
        Ok((driver, steps))
    }

    /// The level last written to `line`.
    pub fn level(&self, line: Line) -> (level: Level)
        ensures
            level == self.levels().level(line),
    {
        self.levels.get(line)
    }

    fn drive(&mut self, steps: &mut Vec<Step>, line: Line, level: Level)
        ensures
            final(steps)@ == old(steps)@.push(Step::Write { line, level }),
            final(self).timing == old(self).timing,
            final(self).levels.level(line) == level,
            forall|other: Line|
                other != line ==> final(self).levels.level(other) == old(self).levels.level(other),
    {
        self.levels.set(line, level);
        steps.push(Step::Write { line, level });
    }

    fn set_layer(&mut self, steps: &mut Vec<Step>, layer: u8)
        ensures
            final(steps)@ == old(steps)@ + select_steps(layer),
            final(self).timing == old(self).timing,
            final(self).levels.follows(old(self).levels, select_steps(layer)),
    {
        proof {
            lemma_bit_weights(layer);
        }
        self.drive(steps, Line::LayerSelect0, check_bit(layer, 1));
        self.drive(steps, Line::LayerSelect1, check_bit(layer, 2));
        self.drive(steps, Line::LayerSelect2, check_bit(layer, 4));
        proof {
            assert(steps@ =~= old(steps)@ + select_steps(layer));
            reveal_with_fuel(level_after, 4);
        }
    }

    fn write_row(&mut self, steps: &mut Vec<Step>, pattern: u8)
        ensures
            final(steps)@ == old(steps)@ + row_steps(pattern, old(self).timing),
            final(self).timing == old(self).timing,
            final(self).levels.follows(old(self).levels, row_steps(pattern, old(self).timing)),
    {
        proof {
            lemma_bit_weights(pattern);
        }
        let settle = self.timing.row_settle_micros;
        // Need to sleep between setting channels and driving clock to allow inputs to settle
        self.drive(steps, Line::Par1, check_bit(pattern, 1));
        self.drive(steps, Line::Par2, check_bit(pattern, 2));
        self.drive(steps, Line::Par3, check_bit(pattern, 4));
        self.drive(steps, Line::Par4, check_bit(pattern, 8));
        self.drive(steps, Line::Par5, check_bit(pattern, 16));
        self.drive(steps, Line::Par6, check_bit(pattern, 32));
        self.drive(steps, Line::Par7, check_bit(pattern, 64));
        self.drive(steps, Line::Par8, check_bit(pattern, 128));
        pause(steps, settle);

        // Trigger rising edge clock pulse
        self.drive(steps, Line::ShiftClock, Level::High);
        pause(steps, settle);

        // Relax clock line
        self.drive(steps, Line::ShiftClock, Level::Low);
        pause(steps, settle);

        proof {
            assert(steps@ =~= old(steps)@ + row_steps(pattern, old(self).timing));
            reveal_with_fuel(level_after, 14);
        }
    }

    fn write_layer(&mut self, steps: &mut Vec<Step>, layer: u8, rows: Layer)
        ensures
            final(steps)@ == old(steps)@ + layer_steps(layer, rows, old(self).timing),
            final(self).timing == old(self).timing,
            final(self).levels.follows(old(self).levels, layer_steps(layer, rows, old(self).timing)),
    {
        let ghost t = self.timing;
        let mut i: usize = 0;
        while i < 8
            invariant
                i <= 8,
                self.timing == t,
                t == old(self).timing,
                steps@ == old(steps)@ + rows_steps(rows, i as int, t),
                self.levels.follows(old(self).levels, rows_steps(rows, i as int, t)),
            decreases 8 - i,
        {
            let ghost before = self.levels;
            let ghost done = rows_steps(rows, i as int, t);
            // Write 1 bit of each column in parallel
            self.write_row(steps, rows[i]);
            proof {
                let row = row_steps(rows[i as int], t);
                assert(old(steps)@ + done + row =~= old(steps)@ + (done + row));
                lemma_follows_concat(old(self).levels, done, before, row, self.levels);
            }
            i += 1;
        }
        let ghost shifted = self.levels;
        let ghost prefix = steps@;
        let settle = self.timing.latch_settle_micros;

        // Disable output to avoid ghosting, active low
        self.drive(steps, Line::OutputEnable, Level::High);
        pause(steps, settle);

        // Move data to output register by triggering rising edge
        self.drive(steps, Line::LatchClock, Level::High);
        let ghost raised = self.levels;
        // Switch active layer too
        self.set_layer(steps, layer);
        pause(steps, settle);

        // Relax clock line and enable output
        self.drive(steps, Line::LatchClock, Level::Low);
        self.drive(steps, Line::OutputEnable, Level::Low);
        pause(steps, settle);

        proof {
            assert(steps@ =~= prefix + latch_steps(layer, t));
            assert(prefix + latch_steps(layer, t) =~= old(steps)@ + layer_steps(layer, rows, t));
            assert(self.levels.follows(shifted, latch_steps(layer, t))) by {
                assert forall|line: Line| #[trigger]
                    self.levels.level(line) == level_after(
                        shifted.level(line),
                        latch_steps(layer, t),
                        line,
                    ) by {
                    lemma_latch_leaves_lines(shifted.level(line), layer, t, line);
                    lemma_select_leaves_lines(raised.level(line), layer, line);
                }
            }
            lemma_follows_concat(
                old(self).levels,
                rows_steps(rows, 8, t),
                shifted,
                latch_steps(layer, t),
                self.levels,
            );
        }
    }

    /// Writes one layer and leaves it lit for one strobe.
    ///
    /// Only the low three bits of `layer` reach the select lines.
    pub fn test_layer(&mut self, layer: u8, data: Layer) -> (steps: Vec<Step>)
        ensures
            steps@ == strobe_steps(layer, data, old(self).timing()),
            final(self).timing() == old(self).timing(),
            final(self).levels().follows(old(self).levels(), steps@),
            old(self).levels().idle() ==> final(self).levels().idle(),
    {
        let mut steps: Vec<Step> = Vec::new();
        self.strobe_layer(&mut steps, layer, data);
        steps
    }

    fn strobe_layer(&mut self, steps: &mut Vec<Step>, layer: u8, rows: Layer)
        ensures
            final(steps)@ == old(steps)@ + strobe_steps(layer, rows, old(self).timing),
            final(self).timing == old(self).timing,
            final(self).levels.follows(old(self).levels, strobe_steps(layer, rows, old(self).timing)),
            old(self).levels.idle() ==> final(self).levels.idle(),
    {
        let ghost t = self.timing;
        let ghost hold = seq![Step::Sleep { micros: t.strobe_micros }];
        self.write_layer(steps, layer, rows);
        let ghost written = self.levels;
        pause(steps, self.timing.strobe_micros);
        proof {
            assert(steps@ =~= old(steps)@ + strobe_steps(layer, rows, t));
            assert(self.levels.follows(written, hold)) by {
                reveal_with_fuel(level_after, 2);
            }
            lemma_follows_concat(
                old(self).levels,
                layer_steps(layer, rows, t),
                written,
                hold,
                self.levels,
            );
            lemma_strobe_keeps_idle(old(self).levels, layer, rows, t, self.levels);
        }
    }

    /// Renders one frame to the cube exactly once: all eight layers are
    /// written and strobed, layer 0 first.
    pub fn write_frame(&mut self, data: Frame) -> (steps: Vec<Step>)
        ensures
            steps@ == frame_steps(data, old(self).timing()),
            final(self).timing() == old(self).timing(),
            final(self).levels().follows(old(self).levels(), steps@),
            old(self).levels().idle() ==> final(self).levels().idle(),
    {
        let ghost t = self.timing;
        let mut steps: Vec<Step> = Vec::new();
        let mut layer: u8 = 0;
        proof {
            reveal_with_fuel(level_after, 1);
        }
        while layer < 8
            invariant
                layer <= 8,
                self.timing == t,
                t == old(self).timing,
                steps@ == sweep_steps(data, layer as int, t),
                self.levels.follows(old(self).levels, sweep_steps(data, layer as int, t)),
                old(self).levels.idle() ==> self.levels.idle(),
            decreases 8 - layer,
        {
            let ghost before = self.levels;
            let ghost done = sweep_steps(data, layer as int, t);
            self.strobe_layer(&mut steps, layer, data[layer as usize]);
            proof {
                lemma_follows_concat(
                    old(self).levels,
                    done,
                    before,
                    strobe_steps(layer, data[layer as int], t),
                    self.levels,
                );
            }
            layer += 1;
        }
        steps
    }

    /// Drives every line to its inert level, so that the cube goes dark:
    /// layer select to zero, output disabled, data and clocks low.
    ///
    /// The clear line stays low, which holds the shift registers empty: a
    /// driver that was released shows nothing until the lines are acquired
    /// anew.
    pub fn release(&mut self) -> (steps: Vec<Step>)
        ensures
            steps@ == release_steps(),
            final(self).timing() == old(self).timing(),
            final(self).levels().all_inert(),
            final(self).levels().follows(old(self).levels(), steps@),
    {
        let mut steps: Vec<Step> = Vec::new();
        self.drive(&mut steps, Line::LayerSelect0, Level::Low);
        self.drive(&mut steps, Line::LayerSelect1, Level::Low);
        self.drive(&mut steps, Line::LayerSelect2, Level::Low);
        self.drive(&mut steps, Line::OutputEnable, Level::High);  // Disable output

        self.drive(&mut steps, Line::Par1, Level::Low);
        self.drive(&mut steps, Line::Par2, Level::Low);
        self.drive(&mut steps, Line::Par3, Level::Low);
        self.drive(&mut steps, Line::Par4, Level::Low);
        self.drive(&mut steps, Line::Par5, Level::Low);
        self.drive(&mut steps, Line::Par6, Level::Low);
        self.drive(&mut steps, Line::Par7, Level::Low);
        self.drive(&mut steps, Line::Par8, Level::Low);
        self.drive(&mut steps, Line::LatchClock, Level::Low);
        self.drive(&mut steps, Line::ShiftClock, Level::Low);
        self.drive(&mut steps, Line::ShiftClear, Level::Low);
        proof {
            assert(steps@ =~= release_steps());
            reveal_with_fuel(level_after, 16);
        }
        steps
    }
}

fn pause(steps: &mut Vec<Step>, micros: u64)
    ensures
        final(steps)@ == old(steps)@.push(Step::Sleep { micros }),
{
    steps.push(Step::Sleep { micros });
}

} // verus!
