//! Sources of frames that roll dice.
//!
//! Each animation draws its random numbers in `next_frame` and hands them
//! to a function that is verified for every number that may be drawn.

use crate::entropy::{draw_u32, draw_u64, rng_from_entropy};
use crate::frame::{
    blank, dark, frame_of, in_cube, lemma_bit_stripes, lemma_bit_toggled, lemma_is_frame_of, lit,
    Frame, Layer,
};
use rand::rngs::SmallRng;
use vstd::prelude::*;

verus! {

/// Byte `i` of `x`, counted from the most significant.
pub open spec fn be_byte(x: u64, i: int) -> u8 {
    ((x >> ((56 - 8 * i) as u64)) & 0xff) as u8
}

/// The bytes of `x`, most significant first, as the rows of a layer.
pub open spec fn be_bytes(x: u64) -> Layer {
    [
        be_byte(x, 0),
        be_byte(x, 1),
        be_byte(x, 2),
        be_byte(x, 3),
        be_byte(x, 4),
        be_byte(x, 5),
        be_byte(x, 6),
        be_byte(x, 7),
    ]
}

proof fn lemma_low_byte(x: u64, shift: u64)
    by (bit_vector)
    ensures
        (x >> shift) & 0xff < 256,
{
}

/// The layer whose rows are the bytes of `x`, most significant first.
pub fn layer_from_bits(x: u64) -> (rows: Layer)
    ensures
        rows == be_bytes(x),
{
    proof {
        lemma_low_byte(x, 56);
        lemma_low_byte(x, 48);
        lemma_low_byte(x, 40);
        lemma_low_byte(x, 32);
        lemma_low_byte(x, 24);
        lemma_low_byte(x, 16);
        lemma_low_byte(x, 8);
        lemma_low_byte(x, 0);
    }
    let rows: Layer = [
        ((x >> 56u64) & 0xff) as u8,
        ((x >> 48u64) & 0xff) as u8,
        ((x >> 40u64) & 0xff) as u8,
        ((x >> 32u64) & 0xff) as u8,
        ((x >> 24u64) & 0xff) as u8,
        ((x >> 16u64) & 0xff) as u8,
        ((x >> 8u64) & 0xff) as u8,
        ((x >> 0u64) & 0xff) as u8,
    ];
    assert(rows =~= be_bytes(x));
    rows
}

/// Like rainfall: a layer of sparse random drops appears at the top and
/// falls one layer per frame.
pub struct Rain {
    rng: SmallRng,
    memory: Frame,
    head: usize,
}

impl Rain {
    /// The frame on display: the remembered layers, oldest at the bottom.
    pub closed spec fn window(&self) -> Frame {
        [
            self.memory[(self.head + 0) % 8],
            self.memory[(self.head + 1) % 8],
            self.memory[(self.head + 2) % 8],
            self.memory[(self.head + 3) % 8],
            self.memory[(self.head + 4) % 8],
            self.memory[(self.head + 5) % 8],
            self.memory[(self.head + 6) % 8],
            self.memory[(self.head + 7) % 8],
        ]
    }

    /// The oldest layer has a place in the memory.
    pub closed spec fn wf(&self) -> bool {
        self.head < 8
    }

    pub fn new() -> (s: Self)
        ensures
            s.wf(),
            s.window() == dark(),
    {
        let rng = rng_from_entropy();

        let memory = blank();
        let head = 0usize;

        let s = Rain { rng, memory, head };
        assert(s.window() =~= memory);
        s
    }

    /// Lets the rain fall by one layer, with the bytes of `drops` as the
    /// new top layer, and returns the frame to display.
    pub fn advance(&mut self, drops: u64) -> (f: Frame)
        requires
            old(self).wf(),
        ensures
            final(self).wf(),
            f == final(self).window(),
            forall|z: int| 0 <= z < 7 ==> f[z] == old(self).window()[z + 1],
            f[7] == be_bytes(drops),
    {
        self.memory[self.head] = layer_from_bits(drops);
        self.head = (self.head + 1) % 8;

        let mut frame: Frame = [[0u8; 8]; 8];
        let mut i: usize = 0;
        while i < 8
            invariant
                i <= 8,
                self.head < 8,
                forall|z: int| 0 <= z < i ==> frame[z] == self.memory[(self.head + z) % 8],
            decreases 8 - i,
        {
            frame[i] = self.memory[(self.head + i) % self.memory.len()];
            i += 1;
        }
        assert(frame =~= self.window());
        frame
    }

    /// Draws the drops of a new top layer and lets the rain fall by one
    /// layer. A drop appears where four random numbers all have a bit set.
    pub fn next_frame(&mut self) -> (f: Frame)
        requires
            old(self).wf(),
        ensures
            final(self).wf(),
            f == final(self).window(),
            forall|z: int| 0 <= z < 7 ==> f[z] == old(self).window()[z + 1],
    {
        let a = draw_u64(&mut self.rng);
        let b = draw_u64(&mut self.rng);
        let c = draw_u64(&mut self.rng);
        let d = draw_u64(&mut self.rng);
        self.advance(a & b & c & d)
    }
}

/// The frame with the cells on whose coordinates have an even sum: a
/// chessboard in every direction.
pub open spec fn checkered() -> Frame {
    frame_of(|z: int, x: int, y: int| (x + y + z) % 2 == 0)
}

/// The cell that a random `choice` picks, as `(z, x, y)`: three bits each
/// for the layer, the row and the column.
pub open spec fn chosen_cell(choice: u32) -> (int, int, int) {
    (choice as int % 8, (choice as int / 8) % 8, (choice as int / 64) % 8)
}

/// The cells of [`toggled`].
pub open spec fn toggled_cells(f: Frame, cell: (int, int, int)) -> spec_fn(int, int, int) -> bool {
    |z: int, x: int, y: int| lit(f, z, x, y) != ((z, x, y) == cell)
}

/// The frame `f` with the one cell `cell = (z, x, y)` flipped.
pub open spec fn toggled(f: Frame, cell: (int, int, int)) -> Frame {
    frame_of(toggled_cells(f, cell))
}

proof fn lemma_choice_fields(choice: u32)
    by (bit_vector)
    ensures
        choice >> 3u32 == choice / 8,
        choice >> 6u32 == choice / 64,
{
}

/// Flip a random bit at a time.
pub struct RandomFlip {
    rng: SmallRng,
    state: Frame,
}

impl RandomFlip {
    /// The frame on display.
    pub closed spec fn state(&self) -> Frame {
        self.state
    }

    pub fn new() -> (s: Self)
        ensures
            s.state() == checkered(),
    {
        let evens: u8 = 0b10101010;
        let odds: u8 = 0b01010101;

        let a = [odds, evens, odds, evens, odds, evens, odds, evens];
        let b = [evens, odds, evens, odds, evens, odds, evens, odds];

        let state = [a, b, a, b, a, b, a, b];
        proof {
            lemma_bit_stripes();
            lemma_is_frame_of(state, |z: int, x: int, y: int| (x + y + z) % 2 == 0);
        }
        RandomFlip { rng: rng_from_entropy(), state }
    }

    /// Flips the cell that `choice` picks and returns the frame to display.
    pub fn flip(&mut self, choice: u32) -> (f: Frame)
        ensures
            f == toggled(old(self).state(), chosen_cell(choice)),
            final(self).state() == f,
    {
        proof {
            lemma_choice_fields(choice);
        }
        let layer = (choice % 8) as usize;
        let row = ((choice >> 3) % 8) as usize;
        let col = ((choice >> 6) % 8) as u8;
        let mask = 1u8 << col;

        let before = self.state[layer][row];
        self.state[layer][row] = before ^ mask;

        proof {
            lemma_bit_toggled(before, col);
            lemma_is_frame_of(self.state, toggled_cells(old(self).state, chosen_cell(choice)));
        }
        self.state
    }

    /// Flips one cell picked at random and returns the frame to display.
    pub fn next_frame(&mut self) -> (f: Frame)
        ensures
            final(self).state() == f,
            exists|z: int, x: int, y: int|
                in_cube(z, x, y) && f == #[trigger] toggled(old(self).state(), (z, x, y)),
    {
        let choice = draw_u32(&mut self.rng);
        let f = self.flip(choice);
        proof {
            let cell = chosen_cell(choice);
            assert(in_cube(cell.0, cell.1, cell.2));
            assert(f == toggled(old(self).state(), (cell.0, cell.1, cell.2)));
        }
        f
    }
}

/// The frame whose layer `z` has as its rows the bytes, most significant
/// first, of the bits that the four draws `4z` to `4z + 3` have in common.
pub open spec fn blips(draws: [u64; 32]) -> Frame {
    [
        be_bytes(draws[0] & draws[1] & draws[2] & draws[3]),
        be_bytes(draws[4] & draws[5] & draws[6] & draws[7]),
        be_bytes(draws[8] & draws[9] & draws[10] & draws[11]),
        be_bytes(draws[12] & draws[13] & draws[14] & draws[15]),
        be_bytes(draws[16] & draws[17] & draws[18] & draws[19]),
        be_bytes(draws[20] & draws[21] & draws[22] & draws[23]),
        be_bytes(draws[24] & draws[25] & draws[26] & draws[27]),
        be_bytes(draws[28] & draws[29] & draws[30] & draws[31]),
    ]
}

/// A fistful of lights.
pub struct LittleBlips {
    rng: SmallRng,
}

impl LittleBlips {
    pub fn new() -> Self {
        LittleBlips { rng: rng_from_entropy() }
    }

    /// The layer that shows the bits that four draws have in common.
    pub fn layer_from_draws(a: u64, b: u64, c: u64, d: u64) -> (rows: Layer)
        ensures
            rows == be_bytes(a & b & c & d),
    {
        layer_from_bits(a & b & c & d)
    }

    /// The frame that thirty-two draws make, four to a layer.
    pub fn frame_from_draws(draws: &[u64; 32]) -> (f: Frame)
        ensures
            f == blips(*draws),
    {
        let f = [
            Self::layer_from_draws(draws[0], draws[1], draws[2], draws[3]),
            Self::layer_from_draws(draws[4], draws[5], draws[6], draws[7]),
            Self::layer_from_draws(draws[8], draws[9], draws[10], draws[11]),
            Self::layer_from_draws(draws[12], draws[13], draws[14], draws[15]),
            Self::layer_from_draws(draws[16], draws[17], draws[18], draws[19]),
            Self::layer_from_draws(draws[20], draws[21], draws[22], draws[23]),
            Self::layer_from_draws(draws[24], draws[25], draws[26], draws[27]),
            Self::layer_from_draws(draws[28], draws[29], draws[30], draws[31]),
        ];
        assert(f =~= blips(*draws));
        f
    }

    /// Draws thirty-two random numbers and returns the frame they make.
    /// Every frame may come back.
    pub fn next_frame(&mut self) -> (f: Frame)
        ensures
            exists|draws: [u64; 32]| f == #[trigger] blips(draws),
    {
        let mut draws = [0u64; 32];
        let mut i: usize = 0;
        while i < 32
            invariant
                i <= 32,
            decreases 32 - i,
        {
            draws[i] = draw_u64(&mut self.rng);
            i += 1;
        }
        Self::frame_from_draws(&draws)
    }
}

} // verus!
