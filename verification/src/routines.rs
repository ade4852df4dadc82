//! Sources of frames: fixed patterns and animations that repeat.
//!
//! A fixed pattern hands out its one frame with `frame`. An animation
//! hands out its frames one after the other with `next_frame`, for ever.

use crate::frame::{
    bit, frame_of, lemma_bit_of_full, lemma_bit_of_zero, lemma_bit_single, lemma_bit_stripes,
    lemma_is_frame_of, lit, Frame, Layer,
};
use crate::index::Index;
use vstd::prelude::*;

verus! {

/// The frame with every cell on.
pub open spec fn all_on() -> Frame {
    frame_of(|z: int, x: int, y: int| true)
}

/// The cells of [`one_on`].
pub open spec fn one_on_cells(row: int, col: int, layer: int) -> spec_fn(int, int, int) -> bool {
    |z: int, x: int, y: int| z == layer && x == row && y == col
}

/// The frame with the one cell in layer `layer`, row `row`, column `col` on.
pub open spec fn one_on(row: int, col: int, layer: int) -> Frame {
    frame_of(one_on_cells(row, col, layer))
}

/// The cells of [`one_row`].
pub open spec fn one_row_cells(row: int) -> spec_fn(int, int, int) -> bool {
    |z: int, x: int, y: int| x == row
}

/// The frame with row `row` on in every layer.
pub open spec fn one_row(row: int) -> Frame {
    frame_of(one_row_cells(row))
}

/// The cells of [`one_col`].
pub open spec fn one_col_cells(col: int) -> spec_fn(int, int, int) -> bool {
    |z: int, x: int, y: int| y == col
}

/// The frame with column `col` on in every layer.
pub open spec fn one_col(col: int) -> Frame {
    frame_of(one_col_cells(col))
}

/// The cells of [`one_layer`].
pub open spec fn one_layer_cells(layer: int) -> spec_fn(int, int, int) -> bool {
    |z: int, x: int, y: int| z == layer
}

/// The frame with all of layer `layer` on, and nothing else.
pub open spec fn one_layer(layer: int) -> Frame {
    frame_of(one_layer_cells(layer))
}

/// The frame with every other cell of each layer on, like a chessboard,
/// the same in every layer.
pub open spec fn chess() -> Frame {
    frame_of(|z: int, x: int, y: int| (x + y) % 2 == 1)
}

/// The frame with a plane on that runs diagonally through every layer: in
/// row `x` the cell `slant` columns on from column `x`, wrapping round.
pub open spec fn diagonal(slant: int) -> Frame {
    frame_of(diagonal_cells(slant))
}

/// The cells of [`diagonal`].
pub open spec fn diagonal_cells(slant: int) -> spec_fn(int, int, int) -> bool {
    |z: int, x: int, y: int| y == (x + slant) % 8
}

/// How far the plane of the frame at position `k` of a [`DiagonalPlane`]
/// is shifted: up from 0 to 7, then back down from 7 to 1.
pub open spec fn slant(k: int) -> int {
    if k < 8 {
        k
    } else {
        15 - k
    }
}

/// The shape of the wave: for each layer, which of twelve positions are on.
pub open spec fn wave_template() -> [[u8; 12]; 8] {
    [
        [0, 0, 0, 0, 0, 255, 255, 0, 0, 0, 0, 0],
        [0, 0, 0, 0, 255, 0, 0, 255, 0, 0, 0, 0],
        [0, 0, 0, 255, 0, 0, 0, 0, 255, 0, 0, 0],
        [0, 0, 0, 255, 0, 0, 0, 0, 255, 0, 0, 0],
        [0, 0, 255, 0, 0, 0, 0, 0, 0, 255, 0, 0],
        [0, 0, 255, 0, 0, 0, 0, 0, 0, 255, 0, 0],
        [0, 255, 0, 0, 0, 0, 0, 0, 0, 0, 255, 0],
        [255, 0, 0, 0, 0, 0, 0, 0, 0, 0, 0, 255],
    ]
}

/// The frame of the wave at phase `i`: row `x` of layer `z` is fully on
/// where the template of the layer is on at position `i + x`, wrapping
/// round, and off otherwise.
pub open spec fn wave(i: int) -> Frame {
    frame_of(wave_cells(i))
}

/// The cells of [`wave`].
pub open spec fn wave_cells(i: int) -> spec_fn(int, int, int) -> bool {
    |z: int, x: int, y: int| wave_template()[z][(i + x) % 12] == 255u8
}

/// A hollow cube with a smaller hollow cube inside.
pub open spec fn mini_cube() -> Frame {
    [
        [255, 129, 129, 129, 129, 129, 129, 255],
        [129, 66, 0, 0, 0, 0, 66, 129],
        [129, 0, 60, 36, 36, 60, 0, 129],
        [129, 0, 36, 0, 0, 36, 0, 129],
        [129, 0, 36, 0, 0, 36, 0, 129],
        [129, 0, 60, 36, 36, 60, 0, 129],
        [129, 66, 0, 0, 0, 0, 66, 129],
        [255, 129, 129, 129, 129, 129, 129, 255],
    ]
}

/// Turn on all of the LEDs.
pub struct AllOn {}

impl AllOn {
    pub fn new() -> Self {
        AllOn {  }
    }

    /// The frame with every cell on.
    pub fn frame(&self) -> (f: Frame)
        ensures
            f == all_on(),
    {
        let f: Frame = [[255u8; 8]; 8];
        proof {
            lemma_bit_of_full();
            lemma_is_frame_of(f, |z: int, x: int, y: int| true);
        }
        f
    }
}

/// Turn on a single LED.
pub struct OneOn {
    row: u8,
    col: u8,
    layer: u8,
}

impl OneOn {
    /// The row of the cell, as a number.
    pub closed spec fn row(&self) -> int {
        self.row as int
    }

    /// The column of the cell, as a number.
    pub closed spec fn col(&self) -> int {
        self.col as int
    }

    /// The layer of the cell, as a number.
    pub closed spec fn layer(&self) -> int {
        self.layer as int
    }

    /// The cell lies in the cube.
    pub open spec fn wf(&self) -> bool {
        0 <= self.row() < 8 && 0 <= self.col() < 8 && 0 <= self.layer() < 8
    }

    pub fn new(row_: Index, col_: Index, layer_: Index) -> (s: Self)
        ensures
            s.wf(),
            s.row() == row_.value(),
            s.col() == col_.value(),
            s.layer() == layer_.value(),
    {
        OneOn { row: u8::from(row_), col: u8::from(col_), layer: u8::from(layer_) }
    }

    /// The frame with the one cell on.
    pub fn frame(&self) -> (f: Frame)
        requires
            self.wf(),
        ensures
            f == one_on(self.row(), self.col(), self.layer()),
    {
        let mut frame = [[0u8; 8]; 8];

        frame[self.layer as usize][self.row as usize] = 1u8 << self.col;

        proof {
            lemma_bit_of_zero();
            lemma_bit_single(self.col);
            lemma_is_frame_of(
                frame,
                one_on_cells(self.row as int, self.col as int, self.layer as int),
            );
        }
        frame
    }
}

/// Turn on one full row of LEDs.
pub struct OneRow {
    row: u8,
}

impl OneRow {
    /// The row, as a number.
    pub closed spec fn row(&self) -> int {
        self.row as int
    }

    pub fn new(row_: Index) -> (s: Self)
        ensures
            s.row() == row_.value(),
    {
        OneRow { row: u8::from(row_) }
    }

    /// The frame with the row on in every layer.
    pub fn frame(&self) -> (f: Frame)
        ensures
            f == one_row(self.row()),
    {
        let mut layer_pattern: Layer = [0u8; 8];
        let mut i: usize = 0;
        while i < 8
            invariant
                i <= 8,
                forall|x: int|
                    0 <= x < i ==> layer_pattern[x] == if x == self.row {
                        255u8
                    } else {
                        0u8
                    },
            decreases 8 - i,
        {
            layer_pattern[i] = if i == self.row as usize {
                255
            } else {
                0
            };
            i += 1;
        }
        let frame = [layer_pattern; 8];
        proof {
            lemma_bit_of_zero();
            lemma_bit_of_full();
            lemma_is_frame_of(frame, one_row_cells(self.row as int));
        }
        frame
    }
}

/// Turn on one full column of LEDs.
pub struct OneCol {
    col: u8,
}

impl OneCol {
    /// The column, as a number.
    pub closed spec fn col(&self) -> int {
        self.col as int
    }

    /// The column lies in the cube.
    pub open spec fn wf(&self) -> bool {
        0 <= self.col() < 8
    }

    pub fn new(col_: Index) -> (s: Self)
        ensures
            s.wf(),
            s.col() == col_.value(),
    {
        OneCol { col: u8::from(col_) }
    }

    /// The frame with the column on in every layer.
    pub fn frame(&self) -> (f: Frame)
        requires
            self.wf(),
        ensures
            f == one_col(self.col()),
    {
        let frame: Frame = [[1u8 << self.col; 8]; 8];
        proof {
            lemma_bit_single(self.col);
            lemma_is_frame_of(frame, one_col_cells(self.col as int));
        }
        frame
    }
}

/// Turn on one full layer of LEDs.
pub struct OneLayer {
    layer: u8,
}

impl OneLayer {
    /// The layer, as a number.
    pub closed spec fn layer(&self) -> int {
        self.layer as int
    }

    pub fn new(layer_: Index) -> (s: Self)
        ensures
            s.layer() == layer_.value(),
    {
        OneLayer { layer: u8::from(layer_) }
    }

    /// The frame with the layer on.
    pub fn frame(&self) -> (f: Frame)
        ensures
            f == one_layer(self.layer()),
    {
        let frame = layer_lit(self.layer);
        proof {
            lemma_is_frame_of(frame, one_layer_cells(self.layer as int));
        }
        frame
    }
}

/// The frame in which layer `layer` is fully on and the others are off.
fn layer_lit(layer: u8) -> (frame: Frame)
    ensures
        forall|z: int, x: int, y: int| 0 <= z < 8 && 0 <= x < 8 && 0 <= y < 8 ==> lit(frame, z, x, y) == (z == layer),
{
    let mut frame: Frame = [[0u8; 8]; 8];
    let mut i: usize = 0;
    while i < 8
        invariant
            i <= 8,
            forall|z: int, x: int|
                0 <= z < i && 0 <= x < 8 ==> frame[z][x] == if z == layer {
                    255u8
                } else {
                    0u8
                },
        decreases 8 - i,
    {
        frame[i] = if i == layer as usize {
            [255; 8]
        } else {
            [0; 8]
        };
        i += 1;
    }
    proof {
        lemma_bit_of_zero();
        lemma_bit_of_full();
    }
    frame
}

/// Turn on alternate LEDs like a chessboard.
pub struct Chess {}

impl Chess {
    pub fn new() -> Self {
        Chess {  }
    }

    /// The chessboard frame.
    pub fn frame(&self) -> (f: Frame)
        ensures
            f == chess(),
    {
        let evens: u8 = 0b10101010;
        let odds: u8 = 0b01010101;

        let mut layer_pattern: Layer = [0u8; 8];
        let mut i: usize = 0;
        while i < 8
            invariant
                i <= 8,
                evens == 0xaau8,
                odds == 0x55u8,
                forall|x: int|
                    0 <= x < i ==> layer_pattern[x] == if x % 2 == 0 {
                        evens
                    } else {
                        odds
                    },
            decreases 8 - i,
        {
            layer_pattern[i] = if i % 2 == 0 {
                evens
            } else {
                odds
            };
            i += 1;
        }

        let frame = [layer_pattern; 8];

        proof {
            lemma_bit_stripes();
            lemma_is_frame_of(frame, |z: int, x: int, y: int| (x + y) % 2 == 1);
        }
        frame
    }
}

/// Cycle one layer at a time: the lit layer climbs from the bottom to the
/// top, then the cube stays dark for one frame.
pub struct CycleLayers {
    layer: u8,
}

impl CycleLayers {
    /// The layer that the next frame lights; 8 stands for none.
    pub closed spec fn phase(&self) -> int {
        self.layer as int
    }

    /// The phase is one of the nine of the cycle.
    pub open spec fn wf(&self) -> bool {
        0 <= self.phase() < 9
    }

    pub fn new() -> (s: Self)
        ensures
            s.wf(),
            s.phase() == 0,
    {
        CycleLayers { layer: 0 }
    }

    /// The next frame of the cycle.
    pub fn next_frame(&mut self) -> (f: Frame)
        requires
            old(self).wf(),
        ensures
            final(self).wf(),
            f == one_layer(old(self).phase()),
            final(self).phase() == (old(self).phase() + 1) % 9,
    {
        // Cycle through a window of 9 layers with one lit
        let frame = layer_lit(self.layer);
        proof {
            lemma_is_frame_of(frame, one_layer_cells(self.layer as int));
        }
        self.layer = (self.layer + 1) % 9;
        frame
    }
}

/// Plane waves moving diagonally.
pub struct DiagonalPlane {
    reflect: bool,
    frames: [Frame; 15],
}

impl DiagonalPlane {
    /// Whether the plane moves back after it has moved across.
    pub closed spec fn reflects(&self) -> bool {
        self.reflect
    }

    /// The frames of the animation are the fifteen slanted planes.
    pub closed spec fn wf(&self) -> bool {
        forall|k: int| 0 <= k < 15 ==> #[trigger] self.frames[k] == diagonal(slant(k))
    }

    /// After how many frames the animation repeats.
    pub open spec fn spec_period(&self) -> int {
        if self.reflects() {
            15
        } else {
            8
        }
    }

    pub fn new(reflect: bool) -> (s: Self)
        ensures
            s.wf(),
            s.reflects() == reflect,
    {
        let mut frames: [Frame; 15] = [[[0u8; 8]; 8]; 15];
        let mut i: usize = 0;
        while i < 15
            invariant
                i <= 15,
                forall|k: int| 0 <= k < i ==> #[trigger] frames[k] == diagonal(slant(k)),
            decreases 15 - i,
        {
            let shift: usize = if i < 8 {
                i
            } else {
                15 - i
            };
            let mut rows: Layer = [0u8; 8];
            let mut r: usize = 0;
            while r < 8
                invariant
                    r <= 8,
                    shift < 8,
                    forall|x: int, y: int|
                        0 <= x < r && 0 <= y < 8 ==> bit(rows[x], y) == (y == (x + shift) % 8),
                decreases 8 - r,
            {
                let col = ((r + shift) % 8) as u8;
                proof {
                    lemma_bit_single(col);
                }
                rows[r] = 1u8 << col;
                r += 1;
            }
            let frame: Frame = [rows; 8];
            proof {
                lemma_is_frame_of(frame, diagonal_cells(shift as int));
            }
            frames[i] = frame;
            i += 1;
        }

        DiagonalPlane { reflect, frames }
    }

    /// After how many frames the animation repeats: 15 if the plane moves
    /// back, 8 if it only moves across.
    pub fn period(&self) -> (n: usize)
        ensures
            n == self.spec_period(),
    {
        if self.reflect {
            15
        } else {
            8
        }
    }

    /// The frame at position `tick` of the endless animation.
    pub fn frame_at(&self, tick: usize) -> (f: Frame)
        requires
            self.wf(),
        ensures
            f == diagonal(slant(tick as int % self.spec_period())),
    {
        self.frames[tick % self.period()]
    }
}

/// Flat wave.
pub struct Wave {
    i: usize,
}

impl Wave {
    /// How far the wave has moved.
    pub closed spec fn phase(&self) -> int {
        self.i as int
    }

    /// The phase is one of the 96 of the cycle.
    pub open spec fn wf(&self) -> bool {
        0 <= self.phase() < 96
    }

    pub fn new() -> (s: Self)
        ensures
            s.wf(),
            s.phase() == 0,
    {
        Wave { i: 0 }
    }

    /// The next frame of the wave.
    pub fn next_frame(&mut self) -> (f: Frame)
        requires
            old(self).wf(),
        ensures
            final(self).wf(),
            f == wave(old(self).phase()),
            final(self).phase() == (old(self).phase() + 1) % 96,
    {
        let template: [[u8; 12]; 8] = [
            [0, 0, 0, 0, 0, 255, 255, 0, 0, 0, 0, 0],
            [0, 0, 0, 0, 255, 0, 0, 255, 0, 0, 0, 0],
            [0, 0, 0, 255, 0, 0, 0, 0, 255, 0, 0, 0],
            [0, 0, 0, 255, 0, 0, 0, 0, 255, 0, 0, 0],
            [0, 0, 255, 0, 0, 0, 0, 0, 0, 255, 0, 0],
            [0, 0, 255, 0, 0, 0, 0, 0, 0, 255, 0, 0],
            [0, 255, 0, 0, 0, 0, 0, 0, 0, 0, 255, 0],
            [255, 0, 0, 0, 0, 0, 0, 0, 0, 0, 0, 255],
        ];
        assert(template == wave_template());

        let old_i = self.i;
        self.i = (self.i + 1) % 96;

        let mut frame: Frame = [[0u8; 8]; 8];
        let mut layer: usize = 0;
        while layer < 8
            invariant
                layer <= 8,
                old_i < 96,
                template == wave_template(),
                forall|z: int, x: int|
                    0 <= z < layer && 0 <= x < 8 ==> frame[z][x] == template[z][(old_i + x) % 12],
            decreases 8 - layer,
        {
            let mut j: usize = 0;
            while j < 8
                invariant
                    j <= 8,
                    layer < 8,
                    old_i < 96,
                    forall|z: int, x: int|
                        0 <= z < layer && 0 <= x < 8 ==> frame[z][x] == template[z][(old_i + x)
                            % 12],
                    forall|x: int|
                        0 <= x < j ==> frame[layer as int][x] == template[layer as int][(old_i + x)
                            % 12],
                decreases 8 - j,
            {
                frame[layer][j] = template[layer][(old_i + j) % 12];
                j += 1;
            }
            layer += 1;
        }
        proof {
            let i = old_i as int;
            lemma_bit_of_zero();
            lemma_bit_of_full();
            assert forall|z: int, x: int, y: int|
                0 <= z < 8 && 0 <= x < 8 && 0 <= y < 8 implies lit(frame, z, x, y) == (
            wave_template()[z][(i + x) % 12] == 255u8) by {
                lemma_wave_template_entries(z, (i + x) % 12);
            }
            lemma_is_frame_of(frame, wave_cells(i));
        }
        frame
    }
}

/// Every entry of the wave template is 0 or 255.
proof fn lemma_wave_template_entries(z: int, k: int)
    requires
        0 <= z < 8,
        0 <= k < 12,
    ensures
        wave_template()[z][k] == 0u8 || wave_template()[z][k] == 255u8,
{
}

/// Tiny cube in a cube.
pub struct MiniCube {}

impl MiniCube {
    pub fn new() -> Self {
        MiniCube {  }
    }

    /// The frame with the two nested cubes.
    pub fn frame(&self) -> (f: Frame)
        ensures
            f == mini_cube(),
    {
        [
            [255, 129, 129, 129, 129, 129, 129, 255],
            [129, 66, 0, 0, 0, 0, 66, 129],
            [129, 0, 60, 36, 36, 60, 0, 129],
            [129, 0, 36, 0, 0, 36, 0, 129],
            [129, 0, 36, 0, 0, 36, 0, 129],
            [129, 0, 60, 36, 36, 60, 0, 129],
            [129, 66, 0, 0, 0, 0, 66, 129],
            [255, 129, 129, 129, 129, 129, 129, 255],
        ]
    }
}

} // verus!
