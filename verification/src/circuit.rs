//! The circuitry of the cube as the protocol sees it, and the proof that
//! the driver's steps make it show what they were computed from.
//!
//! Eight shift registers, one for each data line, take in one row at each
//! rising edge of the shift clock. A rising edge of the latch clock copies
//! what they hold to the output register. The multiplexer powers the layer
//! whose number is on the select lines, and the output enable line, active
//! low, decides whether anything is lit at all.

use crate::cube::{
    frame_steps, latch_steps, lemma_release_leaves_line_inert, level_of, release_steps, row_steps,
    rows_steps, startup_steps, strobe_steps, sweep_steps,
};
use crate::frame::{bit, lemma_row_of, lemma_rows_equal, row_of, Frame, Layer};
use crate::lines::{level_after, Level, Line, LineLevels, Step, Timing};
use vstd::prelude::*;

verus! {

/// What the circuitry holds.
pub struct Circuit {
    /// The level of each line, by its position in the order of claiming.
    pub levels: Seq<Level>,
    /// The rows in the shift registers, the one shifted in first at the front.
    pub shifted: Seq<u8>,
    /// The rows in the output register.
    pub latched: Seq<u8>,
}

/// Which data lines are high: the line for column `y` is at position `4 + y`.
pub open spec fn data_columns(levels: Seq<Level>) -> spec_fn(int) -> bool {
    |y: int| levels[4 + y] == Level::High
}

/// The row on the data lines: column `y` is set where the line for it is high.
pub open spec fn data_row(levels: Seq<Level>) -> u8 {
    row_of(data_columns(levels))
}

/// The number on the layer select lines.
pub open spec fn selected_layer(levels: Seq<Level>) -> int {
    (if levels[Line::LayerSelect0.ord()] == Level::High {
        1int
    } else {
        0int
    }) + (if levels[Line::LayerSelect1.ord()] == Level::High {
        2int
    } else {
        0int
    }) + (if levels[Line::LayerSelect2.ord()] == Level::High {
        4int
    } else {
        0int
    })
}

/// Eight rows with nothing in them.
pub open spec fn cleared() -> Seq<u8> {
    Seq::new(8, |x: int| 0u8)
}

impl Circuit {
    /// Every line has a level, and both registers hold eight rows.
    pub open spec fn wf(self) -> bool {
        self.levels.len() == 15 && self.shifted.len() == 8 && self.latched.len() == 8
    }

    /// The level of `line`.
    pub open spec fn level(self, line: Line) -> Level {
        self.levels[line.ord()]
    }

    /// Whether the circuitry is ready for a row: the shift clock is low, so
    /// that raising it makes an edge, and the registers are not held clear.
    pub open spec fn ready(self) -> bool {
        self.level(Line::ShiftClock) == Level::Low && self.level(Line::ShiftClear) == Level::High
    }

    /// Whether the circuitry is between two layers: well formed, ready for
    /// a row, and with the latch clock low, so that raising it makes an edge.
    pub open spec fn idle(self) -> bool {
        self.wf() && self.ready() && self.level(Line::LatchClock) == Level::Low
    }

    /// What the cube shows: nothing while the output is disabled, otherwise
    /// the rows of the output register in the selected layer.
    pub open spec fn showing(self) -> Option<(int, Seq<u8>)> {
        if self.level(Line::OutputEnable) == Level::Low {
            Some((selected_layer(self.levels), self.latched))
        } else {
            None
        }
    }

    /// The circuitry after one step.
    ///
    /// A write of low to the clear line empties the shift registers. A
    /// rising edge of the shift clock moves the row on the data lines
    /// into them, unless they are held clear. A rising edge of the latch
    /// clock copies them to the output register.
    pub open spec fn after(self, step: Step) -> Circuit {
        match step {
            Step::Sleep { .. } => self,
            Step::Write { line, level } => {
                let rising = self.level(line) == Level::Low && level == Level::High;
                Circuit {
                    levels: self.levels.update(line.ord(), level),
                    shifted: if line == Line::ShiftClear && level == Level::Low {
                        cleared()
                    } else if line == Line::ShiftClock && rising && self.level(Line::ShiftClear)
                        == Level::High {
                        self.shifted.drop_first().push(data_row(self.levels))
                    } else {
                        self.shifted
                    },
                    latched: if line == Line::LatchClock && rising {
                        self.shifted
                    } else {
                        self.latched
                    },
                }
            },
        }
    }

    /// The circuitry after a sequence of steps, in order.
    pub open spec fn after_all(self, steps: Seq<Step>) -> Circuit
        decreases steps.len(),
    {
        if steps.len() == 0 {
            self
        } else {
            self.after_all(steps.drop_last()).after(steps.last())
        }
    }
}

/// Circuitry whose lines are at the levels that the driver has written,
/// and idle by its record, is idle.
pub proof fn lemma_recorded_idle(c: Circuit, levels: LineLevels)
    requires
        c.wf(),
        levels.idle(),
        forall|line: Line| #[trigger] c.level(line) == levels.level(line),
    ensures
        c.idle(),
{
    assert(c.level(Line::ShiftClock) == levels.level(Line::ShiftClock));
    assert(c.level(Line::LatchClock) == levels.level(Line::LatchClock));
    assert(c.level(Line::ShiftClear) == levels.level(Line::ShiftClear));
}

/// Steps carried out one after the other act one after the other.
pub proof fn lemma_after_all_concat(c: Circuit, a: Seq<Step>, b: Seq<Step>)
    ensures
        c.after_all(a + b) == c.after_all(a).after_all(b),
    decreases b.len(),
{
    if b.len() == 0 {
        assert(a + b =~= a);
    } else {
        assert((a + b).drop_last() =~= a + b.drop_last());
        assert((a + b).last() == b.last());
        lemma_after_all_concat(c, a, b.drop_last());
    }
}

/// The circuitry stays well formed, and its lines are where the steps
/// leave them.
pub proof fn lemma_after_all_levels(c: Circuit, steps: Seq<Step>)
    requires
        c.wf(),
    ensures
        c.after_all(steps).wf(),
        forall|line: Line| #[trigger]
            c.after_all(steps).level(line) == level_after(c.level(line), steps, line),
    decreases steps.len(),
{
    if steps.len() > 0 {
        lemma_after_all_levels(c, steps.drop_last());
        let before = c.after_all(steps.drop_last());
        assert forall|line: Line| #[trigger]
            c.after_all(steps).level(line) == level_after(c.level(line), steps, line) by {
            assert(before.level(line) == level_after(c.level(line), steps.drop_last(), line));
            lemma_ord_is_one_to_one();
        }
    }
}

/// Different lines have different positions, all below fifteen.
pub proof fn lemma_ord_is_one_to_one()
    ensures
        forall|a: Line| 0 <= #[trigger] a.ord() < 15,
        forall|a: Line, b: Line| a.ord() == b.ord() ==> a == b,
{
}

/// Whether the step is a write to `line`.
pub open spec fn writes_to(step: Step, line: Line) -> bool {
    match step {
        Step::Write { line: written, .. } => written == line,
        Step::Sleep { .. } => false,
    }
}

/// Whether one of the steps writes to `line`.
pub open spec fn touches(steps: Seq<Step>, line: Line) -> bool {
    exists|i: int| 0 <= i < steps.len() && #[trigger] writes_to(steps[i], line)
}

/// Steps that do not write to the latch clock leave the output register
/// as it is.
pub proof fn lemma_latched_kept(c: Circuit, steps: Seq<Step>)
    requires
        !touches(steps, Line::LatchClock),
    ensures
        c.after_all(steps).latched == c.latched,
    decreases steps.len(),
{
    if steps.len() > 0 {
        lemma_take_touches_less(steps, steps.len() - 1, Line::LatchClock);
        lemma_latched_kept(c, steps.drop_last());
        assert(!writes_to(steps[steps.len() - 1], Line::LatchClock));
    }
}

/// Steps that write neither to the shift clock nor to the clear line leave
/// the shift registers as they are.
pub proof fn lemma_shifted_kept(c: Circuit, steps: Seq<Step>)
    requires
        !touches(steps, Line::ShiftClock),
        !touches(steps, Line::ShiftClear),
    ensures
        c.after_all(steps).shifted == c.shifted,
    decreases steps.len(),
{
    if steps.len() > 0 {
        lemma_take_touches_less(steps, steps.len() - 1, Line::ShiftClock);
        lemma_take_touches_less(steps, steps.len() - 1, Line::ShiftClear);
        lemma_shifted_kept(c, steps.drop_last());
        assert(!writes_to(steps[steps.len() - 1], Line::ShiftClock));
        assert(!writes_to(steps[steps.len() - 1], Line::ShiftClear));
    }
}

/// Steps that do not write to a line leave it at its level.
pub proof fn lemma_level_kept(start: Level, steps: Seq<Step>, line: Line)
    requires
        !touches(steps, line),
    ensures
        level_after(start, steps, line) == start,
    decreases steps.len(),
{
    if steps.len() > 0 {
        lemma_take_touches_less(steps, steps.len() - 1, line);
        lemma_level_kept(start, steps.drop_last(), line);
        assert(!writes_to(steps[steps.len() - 1], line));
    }
}

/// What is not written to in all of the steps is not written to in the
/// first `k` of them.
pub proof fn lemma_take_touches_less(steps: Seq<Step>, k: int, line: Line)
    requires
        0 <= k <= steps.len(),
        !touches(steps, line),
    ensures
        !touches(steps.take(k), line),
{
    assert forall|i: int| 0 <= i < steps.take(k).len() implies !#[trigger] writes_to(
        steps.take(k)[i],
        line,
    ) by {
        assert(!writes_to(steps[i], line));
    }
}

/// Whether the steps leave alone all that decides what the cube shows: the
/// output enable line, the select lines and the latch clock.
pub open spec fn display_untouched(steps: Seq<Step>) -> bool {
    &&& !touches(steps, Line::OutputEnable)
    &&& !touches(steps, Line::LayerSelect0)
    &&& !touches(steps, Line::LayerSelect1)
    &&& !touches(steps, Line::LayerSelect2)
    &&& !touches(steps, Line::LatchClock)
}

/// Steps that leave the display alone do not change what the cube shows.
pub proof fn lemma_showing_kept(c: Circuit, steps: Seq<Step>)
    requires
        c.wf(),
        display_untouched(steps),
    ensures
        c.after_all(steps).showing() == c.showing(),
{
    lemma_after_all_levels(c, steps);
    lemma_latched_kept(c, steps);
    lemma_level_kept(c.level(Line::OutputEnable), steps, Line::OutputEnable);
    lemma_level_kept(c.level(Line::LayerSelect0), steps, Line::LayerSelect0);
    lemma_level_kept(c.level(Line::LayerSelect1), steps, Line::LayerSelect1);
    lemma_level_kept(c.level(Line::LayerSelect2), steps, Line::LayerSelect2);
    let d = c.after_all(steps);
    assert(d.level(Line::OutputEnable) == c.level(Line::OutputEnable));
    assert(d.level(Line::LayerSelect0) == c.level(Line::LayerSelect0));
    assert(d.level(Line::LayerSelect1) == c.level(Line::LayerSelect1));
    assert(d.level(Line::LayerSelect2) == c.level(Line::LayerSelect2));
}

/// Steps that follow each other write to a line if either part does.
pub proof fn lemma_touches_concat(a: Seq<Step>, b: Seq<Step>, line: Line)
    ensures
        touches(a + b, line) <==> touches(a, line) || touches(b, line),
{
    if touches(a + b, line) {
        let i = choose|i: int| 0 <= i < (a + b).len() && #[trigger] writes_to((a + b)[i], line);
        if i < a.len() {
            assert(writes_to(a[i], line));
        } else {
            assert(writes_to(b[i - a.len()], line));
        }
    }
    if touches(a, line) {
        let i = choose|i: int| 0 <= i < a.len() && #[trigger] writes_to(a[i], line);
        assert(writes_to((a + b)[i], line));
    }
    if touches(b, line) {
        let i = choose|i: int| 0 <= i < b.len() && #[trigger] writes_to(b[i], line);
        assert(writes_to((a + b)[a.len() + i], line));
    }
}

/// Clocking in a row writes only to the data lines and the shift clock.
pub proof fn lemma_row_touches(pattern: u8, t: Timing, line: Line)
    requires
        line == Line::OutputEnable || line == Line::LayerSelect0 || line == Line::LayerSelect1
            || line == Line::LayerSelect2 || line == Line::LatchClock || line == Line::ShiftClear,
    ensures
        !touches(row_steps(pattern, t), line),
{
    let steps = row_steps(pattern, t);
    assert forall|i: int| 0 <= i < steps.len() implies !#[trigger] writes_to(steps[i], line) by {
        if i == 0 {
        } else if i == 1 {
        } else if i == 2 {
        } else if i == 3 {
        } else if i == 4 {
        } else if i == 5 {
        } else if i == 6 {
        } else if i == 7 {
        } else if i == 8 {
        } else if i == 9 {
        } else if i == 10 {
        } else if i == 11 {
        } else {
        }
    }
}

/// Clocking in rows writes only to the data lines and the shift clock.
pub proof fn lemma_rows_touch(rows: Layer, n: int, t: Timing, line: Line)
    requires
        line == Line::OutputEnable || line == Line::LayerSelect0 || line == Line::LayerSelect1
            || line == Line::LayerSelect2 || line == Line::LatchClock || line == Line::ShiftClear,
    ensures
        !touches(rows_steps(rows, n, t), line),
    decreases n,
{
    if n > 0 {
        lemma_rows_touch(rows, n - 1, t, line);
        lemma_row_touches(rows[n - 1], t, line);
        lemma_touches_concat(rows_steps(rows, n - 1, t), row_steps(rows[n - 1], t), line);
    }
}

/// The steps of a row up to the rising edge of the clock.
spec fn present_steps(pattern: u8, t: Timing) -> Seq<Step> {
    seq![
        Step::Write { line: Line::Par1, level: level_of(bit(pattern, 0)) },
        Step::Write { line: Line::Par2, level: level_of(bit(pattern, 1)) },
        Step::Write { line: Line::Par3, level: level_of(bit(pattern, 2)) },
        Step::Write { line: Line::Par4, level: level_of(bit(pattern, 3)) },
        Step::Write { line: Line::Par5, level: level_of(bit(pattern, 4)) },
        Step::Write { line: Line::Par6, level: level_of(bit(pattern, 5)) },
        Step::Write { line: Line::Par7, level: level_of(bit(pattern, 6)) },
        Step::Write { line: Line::Par8, level: level_of(bit(pattern, 7)) },
        Step::Sleep { micros: t.row_settle_micros },
    ]
}

/// The pulse of the shift clock that ends a row.
spec fn pulse_steps(t: Timing) -> Seq<Step> {
    seq![
        Step::Write { line: Line::ShiftClock, level: Level::High },
        Step::Sleep { micros: t.row_settle_micros },
        Step::Write { line: Line::ShiftClock, level: Level::Low },
        Step::Sleep { micros: t.row_settle_micros },
    ]
}

/// Once a row is presented, the data lines carry it.
proof fn lemma_presented(c: Circuit, pattern: u8, t: Timing)
    requires
        c.wf(),
    ensures
        ({
            let d = c.after_all(present_steps(pattern, t));
            &&& d.wf()
            &&& d.shifted == c.shifted
            &&& d.latched == c.latched
            &&& d.level(Line::ShiftClock) == c.level(Line::ShiftClock)
            &&& d.level(Line::ShiftClear) == c.level(Line::ShiftClear)
            &&& data_row(d.levels) == pattern
        }),
{
    let steps = present_steps(pattern, t);
    let d = c.after_all(steps);
    lemma_after_all_levels(c, steps);
    assert forall|i: int| 0 <= i < steps.len() implies !#[trigger] writes_to(
        steps[i],
        Line::ShiftClock,
    ) && !writes_to(steps[i], Line::ShiftClear) && !writes_to(steps[i], Line::LatchClock) by {
        if i == 0 {
        } else if i == 1 {
        } else if i == 2 {
        } else if i == 3 {
        } else if i == 4 {
        } else if i == 5 {
        } else if i == 6 {
        } else if i == 7 {
        } else {
        }
    }
    lemma_shifted_kept(c, steps);
    lemma_latched_kept(c, steps);
    lemma_level_kept(c.level(Line::ShiftClock), steps, Line::ShiftClock);
    lemma_level_kept(c.level(Line::ShiftClear), steps, Line::ShiftClear);
    assert(d.level(Line::ShiftClock) == c.level(Line::ShiftClock));
    assert(d.level(Line::ShiftClear) == c.level(Line::ShiftClear));
    assert(d.level(Line::Par1) == level_of(bit(pattern, 0))
        && d.level(Line::Par2) == level_of(bit(pattern, 1))
        && d.level(Line::Par3) == level_of(bit(pattern, 2))
        && d.level(Line::Par4) == level_of(bit(pattern, 3))
        && d.level(Line::Par5) == level_of(bit(pattern, 4))
        && d.level(Line::Par6) == level_of(bit(pattern, 5))
        && d.level(Line::Par7) == level_of(bit(pattern, 6))
        && d.level(Line::Par8) == level_of(bit(pattern, 7))) by {
        reveal_with_fuel(level_after, 10);
    }
    lemma_row_of(data_columns(d.levels));
    assert forall|y: int| 0 <= y < 8 implies bit(data_row(d.levels), y) == bit(pattern, y) by {
        assert(bit(data_row(d.levels), y) == data_columns(d.levels)(y));
        if y == 0 {
        } else if y == 1 {
        } else if y == 2 {
        } else if y == 3 {
        } else if y == 4 {
        } else if y == 5 {
        } else if y == 6 {
        } else {
        }
    }
    lemma_rows_equal(data_row(d.levels), pattern);
}

/// Clocking in a row moves the row into the shift registers and changes
/// nothing that the cube shows.
pub proof fn lemma_row_shifts_in(c: Circuit, pattern: u8, t: Timing)
    requires
        c.wf(),
        c.ready(),
    ensures
        ({
            let d = c.after_all(row_steps(pattern, t));
            &&& d.wf()
            &&& d.ready()
            &&& d.shifted == c.shifted.drop_first().push(pattern)
            &&& d.latched == c.latched
            &&& d.showing() == c.showing()
            &&& d.level(Line::LatchClock) == c.level(Line::LatchClock)
        }),
{
    let present = present_steps(pattern, t);
    let pulse = pulse_steps(t);
    assert(row_steps(pattern, t) =~= present + pulse);
    lemma_after_all_concat(c, present, pulse);
    lemma_presented(c, pattern, t);
    let mid = c.after_all(present);
    let d = mid.after_all(pulse);
    assert(d.shifted == c.shifted.drop_first().push(pattern) && d.latched == c.latched && d.ready()
        && d.wf()) by {
        reveal_with_fuel(Circuit::after_all, 5);
    }
    lemma_row_touches(pattern, t, Line::OutputEnable);
    lemma_row_touches(pattern, t, Line::LayerSelect0);
    lemma_row_touches(pattern, t, Line::LayerSelect1);
    lemma_row_touches(pattern, t, Line::LayerSelect2);
    lemma_row_touches(pattern, t, Line::LatchClock);
    lemma_showing_kept(c, row_steps(pattern, t));
    lemma_after_all_levels(c, row_steps(pattern, t));
    lemma_level_kept(c.level(Line::LatchClock), row_steps(pattern, t), Line::LatchClock);
    assert(d.level(Line::LatchClock) == c.level(Line::LatchClock));
}

/// Clocking in `n` rows moves them into the shift registers, the first
/// to the front, and changes nothing that the cube shows.
pub proof fn lemma_rows_shift_in(c: Circuit, rows: Layer, n: int, t: Timing)
    requires
        c.wf(),
        c.ready(),
        0 <= n <= 8,
    ensures
        ({
            let d = c.after_all(rows_steps(rows, n, t));
            &&& d.wf()
            &&& d.ready()
            &&& d.shifted == c.shifted.skip(n) + rows@.take(n)
            &&& d.latched == c.latched
            &&& d.showing() == c.showing()
            &&& d.level(Line::LatchClock) == c.level(Line::LatchClock)
        }),
    decreases n,
{
    if n == 0 {
        assert(c.shifted.skip(0) + rows@.take(0) =~= c.shifted);
    } else {
        let before = rows_steps(rows, n - 1, t);
        let mid = c.after_all(before);
        lemma_rows_shift_in(c, rows, n - 1, t);
        lemma_after_all_concat(c, before, row_steps(rows[n - 1], t));
        lemma_row_shifts_in(mid, rows[n - 1], t);
        assert(mid.shifted.drop_first().push(rows[n - 1]) =~= c.shifted.skip(n) + rows@.take(n));
    }
}

/// The first `k + 1` steps are the first `k`, and then the next.
pub proof fn lemma_after_all_step(c: Circuit, steps: Seq<Step>, k: int)
    requires
        0 <= k < steps.len(),
    ensures
        c.after_all(steps.take(k + 1)) == c.after_all(steps.take(k)).after(steps[k]),
{
    assert(steps.take(k + 1).drop_last() =~= steps.take(k));
    assert(steps.take(k + 1).last() == steps[k]);
}

/// The first steps of two sequences that follow each other are first
/// steps of the first, or all of the first and first steps of the second.
pub proof fn lemma_after_all_take_concat(c: Circuit, a: Seq<Step>, b: Seq<Step>, k: int)
    requires
        0 <= k <= a.len() + b.len(),
    ensures
        c.after_all((a + b).take(k)) == if k <= a.len() {
            c.after_all(a.take(k))
        } else {
            c.after_all(a).after_all(b.take(k - a.len()))
        },
{
    if k <= a.len() {
        assert((a + b).take(k) =~= a.take(k));
    } else {
        assert((a + b).take(k) =~= a + b.take(k - a.len()));
        lemma_after_all_concat(c, a, b.take(k - a.len()));
    }
}

proof fn lemma_low_three_bits(layer: u8)
    by (bit_vector)
    ensures
        (if (layer >> 0u8) & 1u8 == 1u8 {
            1u8
        } else {
            0u8
        }) + (if (layer >> 1u8) & 1u8 == 1u8 {
            2u8
        } else {
            0u8
        }) + (if (layer >> 2u8) & 1u8 == 1u8 {
            4u8
        } else {
            0u8
        }) == layer % 8,
{
}

/// Whether throughout the steps the cube shows what it showed before them,
/// or nothing, or the rows `rows` in layer `z`, and nothing else.
pub open spec fn switches_cleanly(c: Circuit, steps: Seq<Step>, z: int, rows: Seq<u8>) -> bool {
    forall|k: int|
        0 <= k <= steps.len() ==> {
            let shown = #[trigger] c.after_all(steps.take(k)).showing();
            shown == c.showing() || shown is None || shown == Some((z, rows))
        }
}

/// Latching shows what was shifted in, in the layer asked for, and blanks
/// the cube while the output register and the select lines change.
pub proof fn lemma_latch_shows(c: Circuit, layer: u8, t: Timing)
    requires
        c.wf(),
        c.level(Line::LatchClock) == Level::Low,
    ensures
        ({
            let d = c.after_all(latch_steps(layer, t));
            &&& d.wf()
            &&& d.shifted == c.shifted
            &&& d.showing() == Some((layer as int % 8, c.shifted))
            &&& d.level(Line::LatchClock) == Level::Low
            &&& d.level(Line::ShiftClock) == c.level(Line::ShiftClock)
            &&& d.level(Line::ShiftClear) == c.level(Line::ShiftClear)
            &&& switches_cleanly(c, latch_steps(layer, t), layer as int % 8, c.shifted)
        }),
{
    let steps = latch_steps(layer, t);
    lemma_low_three_bits(layer);
    lemma_after_all_step(c, steps, 0);
    lemma_after_all_step(c, steps, 1);
    lemma_after_all_step(c, steps, 2);
    lemma_after_all_step(c, steps, 3);
    lemma_after_all_step(c, steps, 4);
    lemma_after_all_step(c, steps, 5);
    lemma_after_all_step(c, steps, 6);
    lemma_after_all_step(c, steps, 7);
    lemma_after_all_step(c, steps, 8);
    lemma_after_all_step(c, steps, 9);
    assert(steps.take(0) =~= Seq::<Step>::empty());
    assert(steps.take(10) =~= steps);
    let s0 = c.after_all(steps.take(0));
    let s1 = c.after_all(steps.take(1));
    let s2 = c.after_all(steps.take(2));
    let s3 = c.after_all(steps.take(3));
    let s4 = c.after_all(steps.take(4));
    let s5 = c.after_all(steps.take(5));
    let s6 = c.after_all(steps.take(6));
    let s7 = c.after_all(steps.take(7));
    let s8 = c.after_all(steps.take(8));
    let s9 = c.after_all(steps.take(9));
    let s10 = c.after_all(steps.take(10));
    assert(s0 == c);
    assert(s1.showing() is None && s1.wf() && s1.shifted == c.shifted);
    assert(s2 == s1);
    assert(s3.showing() is None && s3.wf() && s3.latched == c.shifted && s3.shifted == c.shifted);
    assert(s4.showing() is None && s4.wf() && s4.latched == c.shifted && s4.shifted == c.shifted);
    assert(s5.showing() is None && s5.wf() && s5.latched == c.shifted && s5.shifted == c.shifted);
    assert(s6.showing() is None && s6.wf() && s6.latched == c.shifted && s6.shifted == c.shifted);
    assert(selected_layer(s6.levels) == layer as int % 8);
    assert(s7 == s6);
    assert(s8.showing() is None && s8.wf() && s8.latched == c.shifted && s8.shifted == c.shifted
        && selected_layer(s8.levels) == layer as int % 8);
    assert(s9.showing() == Some((layer as int % 8, c.shifted)) && s9.wf() && s9.shifted
        == c.shifted);
    assert(s10 == s9);
    assert(s9.level(Line::LatchClock) == Level::Low);
    assert(s9.level(Line::ShiftClock) == c.level(Line::ShiftClock));
    assert(s9.level(Line::ShiftClear) == c.level(Line::ShiftClear));
    assert forall|k: int| 0 <= k <= steps.len() implies {
        let shown = #[trigger] c.after_all(steps.take(k)).showing();
        shown == c.showing() || shown is None || shown == Some((layer as int % 8, c.shifted))
    } by {
        if k == 0 {
        } else if k == 1 {
        } else if k == 2 {
        } else if k == 3 {
        } else if k == 4 {
        } else if k == 5 {
        } else if k == 6 {
        } else if k == 7 {
        } else if k == 8 {
        } else if k == 9 {
        } else {
        }
    }
}

/// Whether at one of the steps the cube waits for `micros` microseconds
/// while it shows the rows `rows` in layer `z`.
pub open spec fn strobes(c: Circuit, steps: Seq<Step>, z: int, rows: Seq<u8>, micros: u64) -> bool {
    exists|k: int|
        0 <= k < steps.len() && steps[k] == (Step::Sleep { micros }) && #[trigger] c.after_all(
            steps.take(k),
        ).showing() == Some((z, rows))
}

/// What is strobed during some steps is strobed during them and more.
pub proof fn lemma_strobes_then_more(
    c: Circuit,
    a: Seq<Step>,
    b: Seq<Step>,
    z: int,
    rows: Seq<u8>,
    micros: u64,
)
    requires
        strobes(c, a, z, rows, micros),
    ensures
        strobes(c, a + b, z, rows, micros),
{
    let k = choose|k: int|
        0 <= k < a.len() && a[k] == (Step::Sleep { micros }) && #[trigger] c.after_all(
            a.take(k),
        ).showing() == Some((z, rows));
    lemma_after_all_take_concat(c, a, b, k);
    assert((a + b)[k] == a[k]);
}

/// What is strobed during later steps is strobed during all of them.
pub proof fn lemma_strobes_after_more(
    c: Circuit,
    a: Seq<Step>,
    b: Seq<Step>,
    z: int,
    rows: Seq<u8>,
    micros: u64,
)
    requires
        strobes(c.after_all(a), b, z, rows, micros),
    ensures
        strobes(c, a + b, z, rows, micros),
{
    let k = choose|k: int|
        0 <= k < b.len() && b[k] == (Step::Sleep { micros }) && #[trigger] c.after_all(
            a,
        ).after_all(b.take(k)).showing() == Some((z, rows));
    lemma_after_all_take_concat(c, a, b, a.len() + k);
    assert((a + b)[a.len() + k] == b[k]);
    if k == 0 {
        assert(b.take(0) =~= Seq::<Step>::empty());
        assert((a + b).take(a.len() as int) =~= a);
    }
}

/// Writing and strobing a layer shows its rows in it for the time of the
/// strobe, and on the way there the cube shows what it showed before, or
/// nothing: never the new rows in the old layer, nor the old rows in the
/// new one.
pub proof fn lemma_layer_is_shown(c: Circuit, layer: u8, rows: Layer, t: Timing)
    requires
        c.idle(),
    ensures
        ({
            let steps = strobe_steps(layer, rows, t);
            let d = c.after_all(steps);
            &&& d.idle()
            &&& d.showing() == Some((layer as int % 8, rows@))
            &&& switches_cleanly(c, steps, layer as int % 8, rows@)
            &&& strobes(c, steps, layer as int % 8, rows@, t.strobe_micros)
        }),
{
    let shift = rows_steps(rows, 8, t);
    let latch = latch_steps(layer, t);
    let hold = seq![Step::Sleep { micros: t.strobe_micros }];
    let steps = strobe_steps(layer, rows, t);
    let z = layer as int % 8;
    assert(steps =~= shift + (latch + hold));
    let c1 = c.after_all(shift);
    let c2 = c1.after_all(latch);
    let c3 = c2.after_all(hold);
    lemma_rows_shift_in(c, rows, 8, t);
    assert(c1.shifted =~= rows@);
    lemma_latch_shows(c1, layer, t);
    assert(c3 == c2) by {
        reveal_with_fuel(Circuit::after_all, 2);
    }
    lemma_after_all_concat(c1, latch, hold);
    lemma_after_all_concat(c, shift, latch + hold);

    assert forall|k: int| 0 <= k <= steps.len() implies {
        let shown = #[trigger] c.after_all(steps.take(k)).showing();
        shown == c.showing() || shown is None || shown == Some((z, rows@))
    } by {
        lemma_after_all_take_concat(c, shift, latch + hold, k);
        if k <= shift.len() {
            lemma_rows_touch(rows, 8, t, Line::OutputEnable);
            lemma_rows_touch(rows, 8, t, Line::LayerSelect0);
            lemma_rows_touch(rows, 8, t, Line::LayerSelect1);
            lemma_rows_touch(rows, 8, t, Line::LayerSelect2);
            lemma_rows_touch(rows, 8, t, Line::LatchClock);
            lemma_take_touches_less(shift, k, Line::OutputEnable);
            lemma_take_touches_less(shift, k, Line::LayerSelect0);
            lemma_take_touches_less(shift, k, Line::LayerSelect1);
            lemma_take_touches_less(shift, k, Line::LayerSelect2);
            lemma_take_touches_less(shift, k, Line::LatchClock);
            lemma_showing_kept(c, shift.take(k));
        } else {
            let j = k - shift.len();
            lemma_after_all_take_concat(c1, latch, hold, j);
            if j <= latch.len() {
                assert(c1.after_all(latch.take(j)).showing() == c1.showing() || c1.after_all(
                    latch.take(j),
                ).showing() is None || c1.after_all(latch.take(j)).showing() == Some(
                    (z, c1.shifted),
                ));
            } else {
                assert(hold.take(j - latch.len()) =~= hold);
            }
        }
    }

    assert(strobes(c, steps, z, rows@, t.strobe_micros)) by {
        let k = steps.len() - 1;
        assert(steps[k] == (Step::Sleep { micros: t.strobe_micros }));
        assert(steps.take(k) =~= shift + latch);
        lemma_after_all_concat(c, shift, latch);
        assert(c.after_all(steps.take(k)).showing() == Some((z, rows@)));
    }
}

/// Whether what the cube shows is a layer of `frame`, in its place.
pub open spec fn shows_layer_of(shown: Option<(int, Seq<u8>)>, frame: Frame) -> bool {
    shown matches Some((z, rows)) && 0 <= z < 8 && rows == frame[z]@
}

/// Whether throughout the steps the cube shows what it showed before them,
/// or nothing, or a layer of `frame` in its place, and nothing else.
pub open spec fn never_smears(c: Circuit, steps: Seq<Step>, frame: Frame) -> bool {
    forall|k: int|
        0 <= k <= steps.len() ==> {
            let shown = #[trigger] c.after_all(steps.take(k)).showing();
            shown == c.showing() || shown is None || shows_layer_of(shown, frame)
        }
}

/// Sweeping the first `n` layers of a frame strobes each of them, and on
/// the way the cube never shows anything that is not a layer of the frame.
pub proof fn lemma_sweep_is_shown(c: Circuit, frame: Frame, n: int, t: Timing)
    requires
        c.idle(),
        0 <= n <= 8,
    ensures
        ({
            let steps = sweep_steps(frame, n, t);
            let d = c.after_all(steps);
            &&& d.idle()
            &&& n == 0 ==> d == c
            &&& n > 0 ==> d.showing() == Some((n - 1, frame[n - 1]@))
            &&& never_smears(c, steps, frame)
            &&& forall|z: int|
                0 <= z < n ==> strobes(c, steps, z, #[trigger] frame[z]@, t.strobe_micros)
        }),
    decreases n,
{
    let steps = sweep_steps(frame, n, t);
    if n == 0 {
        assert forall|k: int| 0 <= k <= steps.len() implies {
            let shown = #[trigger] c.after_all(steps.take(k)).showing();
            shown == c.showing() || shown is None || shows_layer_of(shown, frame)
        } by {
            assert(steps.take(k) =~= Seq::<Step>::empty());
        }
    } else {
        let before = sweep_steps(frame, n - 1, t);
        let last = strobe_steps((n - 1) as u8, frame[n - 1], t);
        let mid = c.after_all(before);
        lemma_sweep_is_shown(c, frame, n - 1, t);
        lemma_layer_is_shown(mid, (n - 1) as u8, frame[n - 1], t);
        lemma_after_all_concat(c, before, last);
        assert(((n - 1) as u8) as int % 8 == n - 1);

        assert forall|k: int| 0 <= k <= steps.len() implies {
            let shown = #[trigger] c.after_all(steps.take(k)).showing();
            shown == c.showing() || shown is None || shows_layer_of(shown, frame)
        } by {
            lemma_after_all_take_concat(c, before, last, k);
            if k <= before.len() {
                let shown = c.after_all(before.take(k)).showing();
                assert(shown == c.showing() || shown is None || shows_layer_of(shown, frame));
            } else {
                let shown = mid.after_all(last.take(k - before.len())).showing();
                assert(shown == mid.showing() || shown is None || shown == Some(
                    (n - 1, frame[n - 1]@),
                ));
            }
        }

        assert forall|z: int| 0 <= z < n implies strobes(
            c,
            steps,
            z,
            #[trigger] frame[z]@,
            t.strobe_micros,
        ) by {
            if z < n - 1 {
                lemma_strobes_then_more(c, before, last, z, frame[z]@, t.strobe_micros);
            } else {
                lemma_strobes_after_more(c, before, last, z, frame[z]@, t.strobe_micros);
            }
        }
    }
}

/// Displaying a frame shows the frame: every layer is lit with its own
/// rows for the time of a strobe, layer 7 stays lit at the end, and at no
/// moment does the cube show anything but what it showed before, nothing,
/// or a layer of the frame in its place.
pub proof fn lemma_frame_is_shown(c: Circuit, frame: Frame, t: Timing)
    requires
        c.idle(),
    ensures
        c.after_all(frame_steps(frame, t)).idle(),
        c.after_all(frame_steps(frame, t)).showing() == Some((7int, frame[7]@)),
        never_smears(c, frame_steps(frame, t), frame),
        forall|z: int|
            0 <= z < 8 ==> strobes(c, frame_steps(frame, t), z, #[trigger] frame[z]@, t.strobe_micros),
{
    lemma_sweep_is_shown(c, frame, 8, t);
}

/// After the lines are claimed at their inert levels, the first steps
/// leave the shift registers empty and the cube dark, ready for a frame.
pub proof fn lemma_startup_clears(c: Circuit, t: Timing)
    requires
        c.wf(),
        forall|line: Line| #[trigger] c.level(line) == line.inert(),
    ensures
        c.after_all(startup_steps(t)).idle(),
        c.after_all(startup_steps(t)).shifted == cleared(),
        c.after_all(startup_steps(t)).showing() is None,
{
    let steps = startup_steps(t);
    assert(c.level(Line::ShiftClock) == Line::ShiftClock.inert());
    assert(c.level(Line::LatchClock) == Line::LatchClock.inert());
    assert(c.level(Line::OutputEnable) == Line::OutputEnable.inert());
    reveal_with_fuel(Circuit::after_all, 6);
}

/// Teardown leaves the cube dark and every line at its inert level,
/// whatever the circuitry held.
pub proof fn lemma_release_darkens(c: Circuit)
    requires
        c.wf(),
    ensures
        c.after_all(release_steps()).showing() is None,
        forall|line: Line| #[trigger] c.after_all(release_steps()).level(line) == line.inert(),
{
    lemma_after_all_levels(c, release_steps());
    assert forall|line: Line| #[trigger]
        c.after_all(release_steps()).level(line) == line.inert() by {
        lemma_release_leaves_line_inert(c.level(line), line);
    }
    assert(c.after_all(release_steps()).level(Line::OutputEnable) == Line::OutputEnable.inert());
}

} // verus!
