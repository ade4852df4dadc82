//! Quarter-turn rotations of a frame about the three axes, and inversion.
//!
//! Axis convention: +X is forward, +Y is left, +Z is up. The layer index
//! encodes Z, the row index encodes X, the bit position in a row encodes Y.

use crate::frame::{
    bit, frame_of, in_cube, lemma_bit_probe, lemma_frame_of, lemma_frames_equal, lit, Frame, Layer,
};
use vstd::prelude::*;

verus! {

/// How content is reoriented before it is displayed.
#[derive(Clone, Copy, Debug, PartialEq, Eq, Structural)]
pub enum Rotation {
    /// Leave the frame as it is.
    Identity,
    /// Quarter turn about the X axis: rows stay, layers and columns trade places.
    RotateAboutX,
    /// Quarter turn about the Y axis: columns stay, layers and rows trade places.
    RotateAboutY,
    /// Quarter turn about the Z axis: layers stay, rows and columns trade places.
    RotateAboutZ,
}

impl Default for Rotation {
    fn default() -> (rotation: Rotation)
        ensures
            rotation == Rotation::Identity,
    {
        Rotation::Identity
    }
}

impl Rotation {
    /// The cell of the input frame that a rotation moves to `(z, x, y)`.
    pub open spec fn source(self, z: int, x: int, y: int) -> (int, int, int) {
        match self {
            Rotation::Identity => (z, x, y),
            Rotation::RotateAboutX => (7 - y, x, z),
            Rotation::RotateAboutY => (x, 7 - z, y),
            Rotation::RotateAboutZ => (z, 7 - y, x),
        }
    }

    /// The cell of the input frame that two applications move to `(z, x, y)`:
    /// both coordinates of the turning plane are mirrored, the coordinate
    /// along the axis stays.
    pub open spec fn half_turn_source(self, z: int, x: int, y: int) -> (int, int, int) {
        match self {
            Rotation::Identity => (z, x, y),
            Rotation::RotateAboutX => (7 - z, x, 7 - y),
            Rotation::RotateAboutY => (7 - z, 7 - x, y),
            Rotation::RotateAboutZ => (z, 7 - x, 7 - y),
        }
    }

    /// Whether `f` shows the same in every pair of cells that a half turn swaps.
    pub open spec fn symmetric_under_half_turn(self, f: Frame) -> bool {
        forall|z: int, x: int, y: int|
            in_cube(z, x, y) ==> #[trigger] lit(f, z, x, y) == lit(
                f,
                self.half_turn_source(z, x, y).0,
                self.half_turn_source(z, x, y).1,
                self.half_turn_source(z, x, y).2,
            )
    }

    /// The cells of `f` after the rotation, as a predicate on coordinates.
    pub open spec fn rotated_cells(self, f: Frame) -> spec_fn(int, int, int) -> bool {
        |z: int, x: int, y: int|
            {
                let s = self.source(z, x, y);
                lit(f, s.0, s.1, s.2)
            }
    }

    /// The frame that the rotation makes of `f`.
    pub open spec fn rotated(self, f: Frame) -> Frame {
        frame_of(self.rotated_cells(f))
    }

    /// Every cell of the rotated frame shows what its source cell showed.
    pub proof fn lemma_rotated(self, f: Frame)
        ensures
            forall|z: int, x: int, y: int|
                in_cube(z, x, y) ==> #[trigger] lit(self.rotated(f), z, x, y) == lit(
                    f,
                    self.source(z, x, y).0,
                    self.source(z, x, y).1,
                    self.source(z, x, y).2,
                ),
    {
        lemma_frame_of(self.rotated_cells(f));
    }

    /// Rotates `data`. Total and pure: the input is left untouched.
    ///
    /// Every cell of the result shows what its source cell showed. About
    /// X, column `y` of row `x` in layer `z` comes from column `z` of row
    /// `x` in layer `7 - y`; about Y, row `x` of layer `z` is row `7 - z`
    /// of layer `x`; about Z, column `y` of row `x` comes from column `x`
    /// of row `7 - y` in the same layer.
    pub fn apply(&self, data: &Frame) -> (out: Frame)
        ensures
            out == self.rotated(*data),
            forall|z: int, x: int, y: int|
                in_cube(z, x, y) ==> #[trigger] lit(out, z, x, y) == lit(
                    *data,
                    self.source(z, x, y).0,
                    self.source(z, x, y).1,
                    self.source(z, x, y).2,
                ),
    {
        let mut out: Frame = [[0u8; 8]; 8];
        let mut layer: usize = 0;
        while layer < 8
            invariant
                layer <= 8,
                forall|z: int, x: int, y: int|
                    0 <= z < layer && 0 <= x < 8 && 0 <= y < 8 ==> bit(out[z][x], y)
                        == self.rotated_cells(*data)(z, x, y),
            decreases 8 - layer,
        {
            let rows = self.rotated_layer(data, layer);
            out[layer] = rows;
            layer += 1;
        }
        proof {
            let goal = self.rotated(*data);
            lemma_frame_of(self.rotated_cells(*data));
            assert forall|z: int, x: int, y: int| in_cube(z, x, y) implies lit(out, z, x, y)
                == lit(goal, z, x, y) by {
                assert(bit(out[z][x], y) == self.rotated_cells(*data)(z, x, y));
            }
            lemma_frames_equal(out, goal);
            self.lemma_rotated(*data);
        }
        out
    }

    /// One layer of the rotated frame.
    fn rotated_layer(&self, data: &Frame, layer: usize) -> (rows: Layer)
        requires
            layer < 8,
        ensures
            forall|x: int, y: int|
                0 <= x < 8 && 0 <= y < 8 ==> bit(rows[x], y) == self.rotated_cells(*data)(
                    layer as int,
                    x,
                    y,
                ),
    {
        let mut rows: Layer = [0u8; 8];
        let mut row: usize = 0;
        while row < 8
            invariant
                row <= 8,
                layer < 8,
                forall|x: int, y: int|
                    0 <= x < row && 0 <= y < 8 ==> bit(rows[x], y) == self.rotated_cells(*data)(
                        layer as int,
                        x,
                        y,
                    ),
            decreases 8 - row,
        {
            let mask = match self {
                Rotation::Identity => data[layer][row],
                Rotation::RotateAboutX => {
                    // Build a row from each of the bits in the corresponding layer
                    let column = [
                        data[0][row],
                        data[1][row],
                        data[2][row],
                        data[3][row],
                        data[4][row],
                        data[5][row],
                        data[6][row],
                        data[7][row],
                    ];
                    fold_bits(&column, layer)
                },
                Rotation::RotateAboutY => data[row][7 - layer],
                Rotation::RotateAboutZ => {
                    // Build row from each of the bits in the corresponding column
                    fold_bits(&data[layer], row)
                },
            };
            rows[row] = mask;
            row += 1;
        }
        rows
    }
}

/// The cells of `f` with every one of them flipped, as a predicate.
pub open spec fn inverted_cells(f: Frame) -> spec_fn(int, int, int) -> bool {
    |z: int, x: int, y: int| !lit(f, z, x, y)
}

/// The frame that shows exactly the cells that `f` does not.
pub open spec fn inverted(f: Frame) -> Frame {
    frame_of(inverted_cells(f))
}

/// What is displayed for a produced frame: rotate first, then invert if asked.
pub open spec fn transformed(rotation: Rotation, invert: bool, f: Frame) -> Frame {
    if invert {
        inverted(rotation.rotated(f))
    } else {
        rotation.rotated(f)
    }
}

/// Every cell of the inverted frame shows the opposite of what `f` shows.
pub proof fn lemma_inverted(f: Frame)
    ensures
        forall|z: int, x: int, y: int|
            in_cube(z, x, y) ==> #[trigger] lit(inverted(f), z, x, y) == !lit(f, z, x, y),
{
    lemma_frame_of(inverted_cells(f));
}

/// The identity rotation returns every frame unchanged.
pub proof fn lemma_identity_keeps_frame(f: Frame)
    ensures
        Rotation::Identity.rotated(f) == f,
{
    Rotation::Identity.lemma_rotated(f);
    lemma_frames_equal(Rotation::Identity.rotated(f), f);
}

/// Two quarter turns make a half turn: every cell shows what the cell
/// mirrored in the turning plane showed.
pub proof fn lemma_half_turn(rotation: Rotation, f: Frame)
    ensures
        forall|z: int, x: int, y: int|
            in_cube(z, x, y) ==> #[trigger] lit(rotation.rotated(rotation.rotated(f)), z, x, y)
                == lit(
                f,
                rotation.half_turn_source(z, x, y).0,
                rotation.half_turn_source(z, x, y).1,
                rotation.half_turn_source(z, x, y).2,
            ),
{
    let once = rotation.rotated(f);
    rotation.lemma_rotated(f);
    rotation.lemma_rotated(once);
    assert forall|z: int, x: int, y: int| in_cube(z, x, y) implies #[trigger] lit(
        rotation.rotated(once),
        z,
        x,
        y,
    ) == lit(
        f,
        rotation.half_turn_source(z, x, y).0,
        rotation.half_turn_source(z, x, y).1,
        rotation.half_turn_source(z, x, y).2,
    ) by {
        let s = rotation.source(z, x, y);
        assert(lit(rotation.rotated(once), z, x, y) == lit(once, s.0, s.1, s.2));
    }
}

/// Any rotation applied four times returns every frame unchanged.
pub proof fn lemma_four_quarter_turns(rotation: Rotation, f: Frame)
    ensures
        rotation.rotated(rotation.rotated(rotation.rotated(rotation.rotated(f)))) == f,
{
    let half = rotation.rotated(rotation.rotated(f));
    let full = rotation.rotated(rotation.rotated(half));
    lemma_half_turn(rotation, f);
    lemma_half_turn(rotation, half);
    assert forall|z: int, x: int, y: int| in_cube(z, x, y) implies lit(full, z, x, y) == lit(
        f,
        z,
        x,
        y,
    ) by {
        let s = rotation.half_turn_source(z, x, y);
        assert(lit(full, z, x, y) == lit(half, s.0, s.1, s.2));
    }
    lemma_frames_equal(full, f);
}

/// A rotation applied twice returns a frame unchanged exactly when the
/// frame is symmetric under the half turn.
pub proof fn lemma_half_turn_fixed_frames(rotation: Rotation, f: Frame)
    ensures
        rotation.rotated(rotation.rotated(f)) == f <==> rotation.symmetric_under_half_turn(f),
{
    let half = rotation.rotated(rotation.rotated(f));
    lemma_half_turn(rotation, f);
    if rotation.symmetric_under_half_turn(f) {
        assert forall|z: int, x: int, y: int| in_cube(z, x, y) implies lit(half, z, x, y) == lit(
            f,
            z,
            x,
            y,
        ) by {
            let s = rotation.half_turn_source(z, x, y);
            assert(lit(f, z, x, y) == lit(f, s.0, s.1, s.2));
        }
        lemma_frames_equal(half, f);
    }
    if half == f {
        assert forall|z: int, x: int, y: int| in_cube(z, x, y) implies #[trigger] lit(f, z, x, y)
            == lit(
            f,
            rotation.half_turn_source(z, x, y).0,
            rotation.half_turn_source(z, x, y).1,
            rotation.half_turn_source(z, x, y).2,
        ) by {
            assert(lit(half, z, x, y) == lit(f, z, x, y));
        }
    }
}

/// The frame with the single cell `(0, 0, 0)` on.
pub open spec fn corner_frame() -> Frame {
    frame_of(|z: int, x: int, y: int| z == 0 && x == 0 && y == 0)
}

/// A quarter turn applied twice is not the identity: it moves the lit
/// corner of [`corner_frame`] to another corner.
pub proof fn lemma_half_turn_moves_corner(rotation: Rotation)
    requires
        rotation != Rotation::Identity,
    ensures
        rotation.rotated(rotation.rotated(corner_frame())) != corner_frame(),
{
    let f = corner_frame();
    let half = rotation.rotated(rotation.rotated(f));
    lemma_frame_of(|z: int, x: int, y: int| z == 0 && x == 0 && y == 0);
    lemma_half_turn(rotation, f);
    assert(lit(f, 0, 0, 0));
    assert(!lit(f, 7, 0, 7));
    assert(!lit(f, 7, 7, 0));
    assert(!lit(f, 0, 7, 7));
    assert(!lit(half, 0, 0, 0));
}

/// Inverting twice returns every frame unchanged.
pub proof fn lemma_invert_twice(f: Frame)
    ensures
        inverted(inverted(f)) == f,
{
    lemma_inverted(f);
    lemma_inverted(inverted(f));
    lemma_frames_equal(inverted(inverted(f)), f);
}

proof fn lemma_flip_bit(row: u8, i: u8)
    by (bit_vector)
    requires
        i < 8,
    ensures
        (((row ^ 0xffu8) >> i) & 1u8 == 1u8) == !((row >> i) & 1u8 == 1u8),
{
}

/// Flips every cell of `frame`.
pub fn invert(frame: &Frame) -> (out: Frame)
    ensures
        out == inverted(*frame),
        forall|z: int, x: int| 0 <= z < 8 && 0 <= x < 8 ==> out[z][x] == frame[z][x] ^ 0xffu8,
{
    let mut out: Frame = *frame;
    let mut layer: usize = 0;
    while layer < 8
        invariant
            layer <= 8,
            forall|z: int, x: int| 0 <= z < layer && 0 <= x < 8 ==> out[z][x] == frame[z][x] ^ 0xffu8,
        decreases 8 - layer,
    {
        let mut row: usize = 0;
        while row < 8
            invariant
                row <= 8,
                layer < 8,
                forall|z: int, x: int|
                    0 <= z < layer && 0 <= x < 8 ==> out[z][x] == frame[z][x] ^ 0xffu8,
                forall|x: int| 0 <= x < row ==> out[layer as int][x] == frame[layer as int][x] ^ 0xffu8,
            decreases 8 - row,
        {
            out[layer][row] = frame[layer][row] ^ 0xff;
            row += 1;
        }
        layer += 1;
    }
    proof {
        lemma_inverted(*frame);
        assert forall|z: int, x: int, y: int| in_cube(z, x, y) implies lit(out, z, x, y) == lit(
            inverted(*frame),
            z,
            x,
            y,
        ) by {
            lemma_flip_bit(frame[z][x], y as u8);
        }
        lemma_frames_equal(out, inverted(*frame));
    }
    out
}

/// Reorients a produced frame for display: rotate, then invert if asked.
pub fn transform(rotation: Rotation, invert_cells: bool, frame: &Frame) -> (out: Frame)
    ensures
        out == transformed(rotation, invert_cells, *frame),
{
    let rotated = rotation.apply(frame);
    if invert_cells {
        invert(&rotated)
    } else {
        rotated
    }
}

proof fn lemma_shift_in_low(acc: u8, b: u8)
    by (bit_vector)
    requires
        b <= 1,
    ensures
        (acc << 1u8) + b < 256,
        ((((acc << 1u8) + b) as u8 >> 0u8) & 1u8 == 1u8) == (b == 1),
{
}

proof fn lemma_shift_in_high(acc: u8, b: u8, i: u8)
    by (bit_vector)
    requires
        b <= 1,
        i < 7,
    ensures
        ((((acc << 1u8) + b) as u8 >> ((i + 1) as u8)) & 1u8 == 1u8) == ((acc >> i) & 1u8 == 1u8),
{
}

/// Folds bit `index` of each element into one mask, first element into the
/// most significant bit.
fn fold_bits(elems: &[u8; 8], index: usize) -> (out: u8)
    requires
        index < 8,
    ensures
        forall|y: int| 0 <= y < 8 ==> bit(out, y) == bit(elems[7 - y], index as int),
{
    let shift = index as u8;
    let mut acc: u8 = 0;
    let mut k: usize = 0;
    while k < 8
        invariant
            k <= 8,
            shift == index,
            index < 8,
            forall|y: int| 0 <= y < k ==> bit(acc, y) == bit(elems[k - 1 - y], index as int),
        decreases 8 - k,
    {
        let e = elems[k];
        let b: u8 = if e & (1u8 << shift) != 0 {
            1
        } else {
            0
        };
        proof {
            lemma_bit_probe(e, shift);
            lemma_shift_in_low(acc, b);
            let next = ((acc << 1u8) + b) as u8;
            assert forall|y: int| 0 <= y < k + 1 implies bit(next, y) == bit(
                elems[k - y],
                index as int,
            ) by {
                if y > 0 {
                    lemma_shift_in_high(acc, b, (y - 1) as u8);
                    assert(bit(acc, y - 1) == bit(elems[k - 1 - (y - 1)], index as int));
                }
            }
        }
        acc = (acc << 1u8) + b;
        k += 1;
    }
    acc
}

} // verus!
