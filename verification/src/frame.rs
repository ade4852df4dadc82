//! The volumetric frame: an 8x8x8 cube of binary cells.
//!
//! A frame is eight layers (Z), each of eight rows (X), each row an 8-bit
//! mask whose bit `y` is the cell in column `y`. Contracts speak of a frame
//! through [`lit`], the predicate that says whether one cell is on.

use vstd::prelude::*;

verus! {

/// One horizontal slice of the cube: eight row masks.
pub type Layer = [u8; 8];

/// Outer array is Z/layer, inner array is X/row, each bit is Y/column.
pub type Frame = [[u8; 8]; 8];

/// Whether `(z, x, y)` addresses a cell of the cube.
pub open spec fn in_cube(z: int, x: int, y: int) -> bool {
    0 <= z < 8 && 0 <= x < 8 && 0 <= y < 8
}

/// Whether column `y` is set in the row mask `row`.
pub open spec fn bit(row: u8, y: int) -> bool {
    0 <= y < 8 && (row >> (y as u8)) & 1u8 == 1u8
}

/// Whether the cell in layer `z`, row `x`, column `y` of `f` is on.
pub open spec fn lit(f: Frame, z: int, x: int, y: int) -> bool {
    in_cube(z, x, y) && bit(f[z][x], y)
}

/// `mask` if `on`, and the empty mask otherwise.
pub open spec fn mask_if(on: bool, mask: u8) -> u8 {
    if on {
        mask
    } else {
        0u8
    }
}

/// The row mask with column `0` set if `b0`, column `1` if `b1`, and so on.
pub open spec fn pack(
    b0: bool,
    b1: bool,
    b2: bool,
    b3: bool,
    b4: bool,
    b5: bool,
    b6: bool,
    b7: bool,
) -> u8 {
    mask_if(b0, 0x01) | mask_if(b1, 0x02) | mask_if(b2, 0x04) | mask_if(b3, 0x08) | mask_if(
        b4,
        0x10,
    ) | mask_if(b5, 0x20) | mask_if(b6, 0x40) | mask_if(b7, 0x80)
}

/// The row mask whose column `y` is set exactly when `cols(y)` holds.
#[verifier::opaque]
pub open spec fn row_of(cols: spec_fn(int) -> bool) -> u8 {
    pack(cols(0), cols(1), cols(2), cols(3), cols(4), cols(5), cols(6), cols(7))
}

/// The layer whose cell `(x, y)` is on exactly when `cells(x, y)` holds.
#[verifier::opaque]
pub open spec fn layer_of(cells: spec_fn(int, int) -> bool) -> Layer {
    [
        row_of(|y: int| cells(0, y)),
        row_of(|y: int| cells(1, y)),
        row_of(|y: int| cells(2, y)),
        row_of(|y: int| cells(3, y)),
        row_of(|y: int| cells(4, y)),
        row_of(|y: int| cells(5, y)),
        row_of(|y: int| cells(6, y)),
        row_of(|y: int| cells(7, y)),
    ]
}

/// The frame whose cell `(z, x, y)` is on exactly when `cells(z, x, y)` holds.
#[verifier::opaque]
pub open spec fn frame_of(cells: spec_fn(int, int, int) -> bool) -> Frame {
    [
        layer_of(|x: int, y: int| cells(0, x, y)),
        layer_of(|x: int, y: int| cells(1, x, y)),
        layer_of(|x: int, y: int| cells(2, x, y)),
        layer_of(|x: int, y: int| cells(3, x, y)),
        layer_of(|x: int, y: int| cells(4, x, y)),
        layer_of(|x: int, y: int| cells(5, x, y)),
        layer_of(|x: int, y: int| cells(6, x, y)),
        layer_of(|x: int, y: int| cells(7, x, y)),
    ]
}

proof fn lemma_pack_bit(
    b0: bool,
    b1: bool,
    b2: bool,
    b3: bool,
    b4: bool,
    b5: bool,
    b6: bool,
    b7: bool,
    i: u8,
)
    by (bit_vector)
    requires
        i < 8,
    ensures
        ((pack(b0, b1, b2, b3, b4, b5, b6, b7) >> i) & 1u8 == 1u8) == (if i == 0 {
            b0
        } else if i == 1 {
            b1
        } else if i == 2 {
            b2
        } else if i == 3 {
            b3
        } else if i == 4 {
            b4
        } else if i == 5 {
            b5
        } else if i == 6 {
            b6
        } else {
            b7
        }),
{
}

proof fn lemma_same_bits(a: u8, b: u8)
    by (bit_vector)
    requires
        ((a >> 0u8) & 1u8 == 1u8) == ((b >> 0u8) & 1u8 == 1u8),
        ((a >> 1u8) & 1u8 == 1u8) == ((b >> 1u8) & 1u8 == 1u8),
        ((a >> 2u8) & 1u8 == 1u8) == ((b >> 2u8) & 1u8 == 1u8),
        ((a >> 3u8) & 1u8 == 1u8) == ((b >> 3u8) & 1u8 == 1u8),
        ((a >> 4u8) & 1u8 == 1u8) == ((b >> 4u8) & 1u8 == 1u8),
        ((a >> 5u8) & 1u8 == 1u8) == ((b >> 5u8) & 1u8 == 1u8),
        ((a >> 6u8) & 1u8 == 1u8) == ((b >> 6u8) & 1u8 == 1u8),
        ((a >> 7u8) & 1u8 == 1u8) == ((b >> 7u8) & 1u8 == 1u8),
    ensures
        a == b,
{
}

/// A row mask is determined by its eight columns.
pub proof fn lemma_rows_equal(a: u8, b: u8)
    requires
        forall|y: int| 0 <= y < 8 ==> bit(a, y) == bit(b, y),
    ensures
        a == b,
{
    assert(bit(a, 0) == bit(b, 0));
    assert(bit(a, 1) == bit(b, 1));
    assert(bit(a, 2) == bit(b, 2));
    assert(bit(a, 3) == bit(b, 3));
    assert(bit(a, 4) == bit(b, 4));
    assert(bit(a, 5) == bit(b, 5));
    assert(bit(a, 6) == bit(b, 6));
    assert(bit(a, 7) == bit(b, 7));
    lemma_same_bits(a, b);
}

/// Column `y` of `row_of(cols)` is `cols(y)`.
pub proof fn lemma_row_of(cols: spec_fn(int) -> bool)
    ensures
        forall|y: int| 0 <= y < 8 ==> #[trigger] bit(row_of(cols), y) == cols(y),
{
    reveal(row_of);
    assert forall|y: int| 0 <= y < 8 implies #[trigger] bit(row_of(cols), y) == cols(y) by {
        lemma_pack_bit(
            cols(0),
            cols(1),
            cols(2),
            cols(3),
            cols(4),
            cols(5),
            cols(6),
            cols(7),
            y as u8,
        );
    }
}

/// Cell `(x, y)` of `layer_of(cells)` is `cells(x, y)`.
pub proof fn lemma_layer_of(cells: spec_fn(int, int) -> bool)
    ensures
        forall|x: int, y: int|
            0 <= x < 8 && 0 <= y < 8 ==> #[trigger] bit(layer_of(cells)[x], y) == cells(x, y),
{
    reveal(layer_of);
    lemma_row_of(|y: int| cells(0, y));
    lemma_row_of(|y: int| cells(1, y));
    lemma_row_of(|y: int| cells(2, y));
    lemma_row_of(|y: int| cells(3, y));
    lemma_row_of(|y: int| cells(4, y));
    lemma_row_of(|y: int| cells(5, y));
    lemma_row_of(|y: int| cells(6, y));
    lemma_row_of(|y: int| cells(7, y));
}

/// Cell `(z, x, y)` of `frame_of(cells)` is `cells(z, x, y)`.
pub proof fn lemma_frame_of(cells: spec_fn(int, int, int) -> bool)
    ensures
        forall|z: int, x: int, y: int|
            in_cube(z, x, y) ==> #[trigger] lit(frame_of(cells), z, x, y) == cells(z, x, y),
{
    reveal(frame_of);
    lemma_layer_of(|x: int, y: int| cells(0, x, y));
    lemma_layer_of(|x: int, y: int| cells(1, x, y));
    lemma_layer_of(|x: int, y: int| cells(2, x, y));
    lemma_layer_of(|x: int, y: int| cells(3, x, y));
    lemma_layer_of(|x: int, y: int| cells(4, x, y));
    lemma_layer_of(|x: int, y: int| cells(5, x, y));
    lemma_layer_of(|x: int, y: int| cells(6, x, y));
    lemma_layer_of(|x: int, y: int| cells(7, x, y));
}

/// A layer is determined by its sixty-four cells.
pub proof fn lemma_layers_equal(a: Layer, b: Layer)
    requires
        forall|x: int, y: int| 0 <= x < 8 && 0 <= y < 8 ==> bit(a[x], y) == bit(b[x], y),
    ensures
        a == b,
{
    assert forall|x: int| 0 <= x < 8 implies a[x] == b[x] by {
        lemma_rows_equal(a[x], b[x]);
    }
    assert(a =~= b);
}

/// A frame is determined by which of its cells are on.
pub proof fn lemma_frames_equal(f: Frame, g: Frame)
    requires
        forall|z: int, x: int, y: int| in_cube(z, x, y) ==> lit(f, z, x, y) == lit(g, z, x, y),
    ensures
        f == g,
{
    assert forall|z: int| 0 <= z < 8 implies f[z] == g[z] by {
        assert forall|x: int, y: int| 0 <= x < 8 && 0 <= y < 8 implies bit(f[z][x], y) == bit(
            g[z][x],
            y,
        ) by {
            assert(lit(f, z, x, y) == lit(g, z, x, y));
        }
        lemma_layers_equal(f[z], g[z]);
    }
    assert(f =~= g);
}

proof fn lemma_zero_row(i: u8)
    by (bit_vector)
    requires
        i < 8,
    ensures
        !((0u8 >> i) & 1u8 == 1u8),
{
}

proof fn lemma_full_row(i: u8)
    by (bit_vector)
    requires
        i < 8,
    ensures
        (0xffu8 >> i) & 1u8 == 1u8,
{
}

proof fn lemma_probe(row: u8, i: u8)
    by (bit_vector)
    requires
        i < 8,
    ensures
        (row & (1u8 << i) != 0) == ((row >> i) & 1u8 == 1u8),
{
}

proof fn lemma_set_bit(row: u8, c: u8, i: u8)
    by (bit_vector)
    requires
        c < 8,
        i < 8,
    ensures
        (((row | (1u8 << c)) >> i) & 1u8 == 1u8) == (((row >> i) & 1u8 == 1u8) || i == c),
{
}

proof fn lemma_toggle_bit(row: u8, c: u8, i: u8)
    by (bit_vector)
    requires
        c < 8,
        i < 8,
    ensures
        (((row ^ (1u8 << c)) >> i) & 1u8 == 1u8) == (((row >> i) & 1u8 == 1u8) != (i == c)),
{
}

proof fn lemma_weights(row: u8)
    by (bit_vector)
    ensures
        (row & 1u8 != 0) == ((row >> 0u8) & 1u8 == 1u8),
        (row & 2u8 != 0) == ((row >> 1u8) & 1u8 == 1u8),
        (row & 4u8 != 0) == ((row >> 2u8) & 1u8 == 1u8),
        (row & 8u8 != 0) == ((row >> 3u8) & 1u8 == 1u8),
        (row & 16u8 != 0) == ((row >> 4u8) & 1u8 == 1u8),
        (row & 32u8 != 0) == ((row >> 5u8) & 1u8 == 1u8),
        (row & 64u8 != 0) == ((row >> 6u8) & 1u8 == 1u8),
        (row & 128u8 != 0) == ((row >> 7u8) & 1u8 == 1u8),
{
}

/// Testing a mask against the weight of a column reads that column.
pub proof fn lemma_bit_weights(row: u8)
    ensures
        (row & 1u8 != 0) == bit(row, 0),
        (row & 2u8 != 0) == bit(row, 1),
        (row & 4u8 != 0) == bit(row, 2),
        (row & 8u8 != 0) == bit(row, 3),
        (row & 16u8 != 0) == bit(row, 4),
        (row & 32u8 != 0) == bit(row, 5),
        (row & 64u8 != 0) == bit(row, 6),
        (row & 128u8 != 0) == bit(row, 7),
{
    lemma_weights(row);
}

proof fn lemma_single(c: u8, i: u8)
    by (bit_vector)
    requires
        c < 8,
        i < 8,
    ensures
        (((1u8 << c) >> i) & 1u8 == 1u8) == (i == c),
{
}

proof fn lemma_stripes(i: u8)
    by (bit_vector)
    requires
        i < 8,
    ensures
        ((0xaau8 >> i) & 1u8 == 1u8) == (i % 2 == 1),
        ((0x55u8 >> i) & 1u8 == 1u8) == (i % 2 == 0),
{
}

/// The mask `1 << c` has column `c` set and no other.
pub proof fn lemma_bit_single(c: u8)
    requires
        c < 8,
    ensures
        forall|y: int| 0 <= y < 8 ==> #[trigger] bit(1u8 << c, y) == (y == c),
{
    assert forall|y: int| 0 <= y < 8 implies #[trigger] bit(1u8 << c, y) == (y == c) by {
        lemma_single(c, y as u8);
    }
}

/// The mask `0xaa` has the odd columns set, the mask `0x55` the even ones.
pub proof fn lemma_bit_stripes()
    ensures
        forall|y: int| 0 <= y < 8 ==> #[trigger] bit(0xaau8, y) == (y % 2 == 1),
        forall|y: int| 0 <= y < 8 ==> #[trigger] bit(0x55u8, y) == (y % 2 == 0),
{
    assert forall|y: int| 0 <= y < 8 implies #[trigger] bit(0xaau8, y) == (y % 2 == 1) by {
        lemma_stripes(y as u8);
    }
    assert forall|y: int| 0 <= y < 8 implies #[trigger] bit(0x55u8, y) == (y % 2 == 0) by {
        lemma_stripes(y as u8);
    }
}

/// No column of the mask `0` is set.
pub proof fn lemma_bit_of_zero()
    ensures
        forall|y: int| !#[trigger] bit(0u8, y),
{
    assert forall|y: int| !#[trigger] bit(0u8, y) by {
        if 0 <= y < 8 {
            lemma_zero_row(y as u8);
        }
    }
}

/// Every column of the mask `0xff` is set.
pub proof fn lemma_bit_of_full()
    ensures
        forall|y: int| 0 <= y < 8 ==> #[trigger] bit(0xffu8, y),
{
    assert forall|y: int| 0 <= y < 8 implies #[trigger] bit(0xffu8, y) by {
        lemma_full_row(y as u8);
    }
}

/// Testing a mask against `1 << c` reads column `c`.
pub proof fn lemma_bit_probe(row: u8, c: u8)
    requires
        c < 8,
    ensures
        (row & (1u8 << c) != 0) == bit(row, c as int),
{
    lemma_probe(row, c);
}

/// Or-ing `1 << c` into a mask sets column `c` and leaves the others.
pub proof fn lemma_bit_set(row: u8, c: u8)
    requires
        c < 8,
    ensures
        forall|y: int| 0 <= y < 8 ==> #[trigger] bit(row | (1u8 << c), y) == (bit(row, y) || y == c),
{
    assert forall|y: int| 0 <= y < 8 implies #[trigger] bit(row | (1u8 << c), y) == (bit(row, y)
        || y == c) by {
        lemma_set_bit(row, c, y as u8);
    }
}

/// Xor-ing `1 << c` into a mask flips column `c` and leaves the others.
pub proof fn lemma_bit_toggled(row: u8, c: u8)
    requires
        c < 8,
    ensures
        forall|y: int| 0 <= y < 8 ==> #[trigger] bit(row ^ (1u8 << c), y) == (bit(row, y) != (y == c)),
{
    assert forall|y: int| 0 <= y < 8 implies #[trigger] bit(row ^ (1u8 << c), y) == (bit(row, y)
        != (y == c)) by {
        lemma_toggle_bit(row, c, y as u8);
    }
}

/// A frame whose cells are on exactly where `cells` holds is `frame_of(cells)`.
pub proof fn lemma_is_frame_of(f: Frame, cells: spec_fn(int, int, int) -> bool)
    requires
        forall|z: int, x: int, y: int| in_cube(z, x, y) ==> lit(f, z, x, y) == cells(z, x, y),
    ensures
        f == frame_of(cells),
{
    lemma_frame_of(cells);
    lemma_frames_equal(f, frame_of(cells));
}

/// The frame with every cell off.
pub open spec fn dark() -> Frame {
    frame_of(|z: int, x: int, y: int| false)
}

/// A frame with no cell on.
pub fn blank() -> (f: Frame)
    ensures
        f == dark(),
        forall|z: int, x: int, y: int| !lit(f, z, x, y),
{
    let f: Frame = [[0u8; 8]; 8];
    proof {
        lemma_bit_of_zero();
        lemma_frame_of(|z: int, x: int, y: int| false);
        lemma_frames_equal(f, dark());
    }
    f
}

/// Whether the cell in layer `z`, row `x`, column `y` of `frame` is on.
pub fn is_lit(frame: &Frame, z: usize, x: usize, y: usize) -> (on: bool)
    ensures
        on == lit(*frame, z as int, x as int, y as int),
{
    if z < 8 && x < 8 && y < 8 {
        let c = y as u8;
        proof {
            lemma_bit_probe(frame[z as int][x as int], c);
        }
        frame[z][x] & (1u8 << c) != 0
    } else {
        false
    }
}

/// `frame` with the cell in layer `z`, row `x`, column `y` switched on.
pub fn with_cell_lit(frame: Frame, z: u8, x: u8, y: u8) -> (out: Frame)
    requires
        z < 8,
        x < 8,
        y < 8,
    ensures
        forall|a: int, b: int, c: int|
            lit(out, a, b, c) == (lit(frame, a, b, c) || (a == z && b == x && c == y)),
{
    let mut out = frame;
    let row = frame[z as usize][x as usize];
    out[z as usize][x as usize] = row | (1u8 << y);
    proof {
        lemma_bit_set(row, y);
    }
    out
}

} // verus!
