use led_cube::frame::{blank, is_lit, with_cell_lit, Frame};
use led_cube::rotation::{invert, transform, Rotation};

const TURNS: [Rotation; 3] = [
    Rotation::RotateAboutX,
    Rotation::RotateAboutY,
    Rotation::RotateAboutZ,
];

/// A frame without any symmetry: every row holds a different mask.
fn scrambled() -> Frame {
    let mut f = [[0u8; 8]; 8];
    for z in 0..8 {
        for x in 0..8 {
            f[z][x] = (37 * (8 * z + x) + 11) as u8 ^ ((z as u8) << 5) ^ 0x5a;
        }
    }
    f
}

fn single(z: usize, x: usize, mask: u8) -> Frame {
    let mut f = [[0u8; 8]; 8];
    f[z][x] = mask;
    f
}

fn times(rotation: Rotation, n: usize, f: &Frame) -> Frame {
    let mut out = *f;
    for _ in 0..n {
        out = rotation.apply(&out);
    }
    out
}

#[test]
fn four_quarter_turns_return_the_frame() {
    let f = scrambled();
    for r in TURNS {
        assert_eq!(times(r, 4, &f), f);
    }
    assert_eq!(times(Rotation::Identity, 4, &f), f);
}

#[test]
fn two_quarter_turns_change_an_asymmetric_frame() {
    let f = scrambled();
    for r in TURNS {
        assert_ne!(times(r, 2, &f), f);
        assert_ne!(times(r, 1, &f), f);
        assert_ne!(times(r, 3, &f), f);
    }
}

#[test]
fn two_quarter_turns_keep_a_symmetric_frame() {
    let full = [[0xffu8; 8]; 8];
    let dark = blank();
    for r in TURNS {
        assert_eq!(times(r, 2, &full), full);
        assert_eq!(times(r, 2, &dark), dark);
        assert_eq!(times(r, 1, &full), full);
    }
}

#[test]
fn half_turn_mirrors_the_turning_plane() {
    let f = single(1, 2, 0x08);
    assert_eq!(times(Rotation::RotateAboutX, 2, &f), single(6, 2, 0x10));
    assert_eq!(times(Rotation::RotateAboutY, 2, &f), single(6, 5, 0x08));
    assert_eq!(times(Rotation::RotateAboutZ, 2, &f), single(1, 5, 0x10));
}

#[test]
fn identity_returns_the_frame() {
    let f = scrambled();
    assert_eq!(Rotation::Identity.apply(&f), f);
    assert_eq!(Rotation::Identity.apply(&blank()), blank());
}

#[test]
fn apply_leaves_the_input_untouched() {
    let f = scrambled();
    let copy = f;
    let _ = Rotation::RotateAboutX.apply(&f);
    assert_eq!(f, copy);
}

#[test]
fn rotate_about_x_moves_a_single_cell() {
    // Cell (layer 1, row 2, column 3) goes to (layer 3, row 2, column 6).
    let out = Rotation::RotateAboutX.apply(&single(1, 2, 0x08));
    assert_eq!(out, single(3, 2, 0x40));
}

#[test]
fn rotate_about_y_moves_a_single_cell() {
    // Row 2 of layer 1 becomes row 1 of layer 5.
    let out = Rotation::RotateAboutY.apply(&single(1, 2, 0x08));
    assert_eq!(out, single(5, 1, 0x08));
}

#[test]
fn rotate_about_z_moves_a_single_cell() {
    // Cell (layer 1, row 2, column 3) goes to (layer 1, row 3, column 5).
    let out = Rotation::RotateAboutZ.apply(&single(1, 2, 0x08));
    assert_eq!(out, single(1, 3, 0x20));
}

#[test]
fn rotate_about_x_folds_most_significant_bit_first() {
    // Bit 0 of layer 0 ends up in column 7 of layer 0, bit 0 of layer 7 in column 0.
    let mut f = blank();
    f[0][4] = 0x01;
    assert_eq!(Rotation::RotateAboutX.apply(&f), single(0, 4, 0x80));
    let mut g = blank();
    g[7][4] = 0x01;
    assert_eq!(Rotation::RotateAboutX.apply(&g), single(0, 4, 0x01));
}

#[test]
fn rotate_about_x_turns_a_layer_into_a_column() {
    let mut f = blank();
    f[0] = [0xff; 8];
    // The bottom layer becomes column 7 of every row of every layer.
    assert_eq!(Rotation::RotateAboutX.apply(&f), [[0x80u8; 8]; 8]);
}

#[test]
fn rotate_about_z_turns_a_row_into_a_column() {
    let mut f = blank();
    for z in 0..8 {
        f[z][0] = 0xff;
    }
    // Row 0 becomes column 7 of every row.
    assert_eq!(Rotation::RotateAboutZ.apply(&f), [[0x80u8; 8]; 8]);
}

#[test]
fn layer_three_rotated_about_y() {
    let before: Frame = [
        [0x00, 0x00, 0x00, 0x00, 0x00, 0x00, 0x00, 0x00],
        [0x00, 0x00, 0x00, 0x00, 0x00, 0x00, 0x00, 0x00],
        [0x00, 0x00, 0x00, 0x00, 0x00, 0x00, 0x00, 0x00],
        [0xff, 0xff, 0xff, 0xff, 0xff, 0xff, 0xff, 0xff],
        [0x00, 0x00, 0x00, 0x00, 0x00, 0x00, 0x00, 0x00],
        [0x00, 0x00, 0x00, 0x00, 0x00, 0x00, 0x00, 0x00],
        [0x00, 0x00, 0x00, 0x00, 0x00, 0x00, 0x00, 0x00],
        [0x00, 0x00, 0x00, 0x00, 0x00, 0x00, 0x00, 0x00],
    ];
    let after: Frame = [
        [0x00, 0x00, 0x00, 0xff, 0x00, 0x00, 0x00, 0x00],
        [0x00, 0x00, 0x00, 0xff, 0x00, 0x00, 0x00, 0x00],
        [0x00, 0x00, 0x00, 0xff, 0x00, 0x00, 0x00, 0x00],
        [0x00, 0x00, 0x00, 0xff, 0x00, 0x00, 0x00, 0x00],
        [0x00, 0x00, 0x00, 0xff, 0x00, 0x00, 0x00, 0x00],
        [0x00, 0x00, 0x00, 0xff, 0x00, 0x00, 0x00, 0x00],
        [0x00, 0x00, 0x00, 0xff, 0x00, 0x00, 0x00, 0x00],
        [0x00, 0x00, 0x00, 0xff, 0x00, 0x00, 0x00, 0x00],
    ];
    assert_eq!(Rotation::RotateAboutY.apply(&before), after);
}

#[test]
fn rotate_about_y_mirrors_the_layer_index() {
    let mut f = blank();
    f[0][7] = 0x3c;
    // frame'[layer][row] = frame[row][7 - layer]
    assert_eq!(Rotation::RotateAboutY.apply(&f), single(0, 0, 0x3c));
    let mut g = blank();
    g[2][0] = 0x3c;
    assert_eq!(Rotation::RotateAboutY.apply(&g), single(7, 2, 0x3c));
}

#[test]
fn inverting_twice_returns_the_frame() {
    let f = scrambled();
    assert_eq!(invert(&invert(&f)), f);
}

#[test]
fn invert_flips_every_cell() {
    let f = scrambled();
    let g = invert(&f);
    for z in 0..8 {
        for x in 0..8 {
            assert_eq!(g[z][x], f[z][x] ^ 0xff);
            for y in 0..8 {
                assert_ne!(is_lit(&g, z, x, y), is_lit(&f, z, x, y));
            }
        }
    }
    assert_eq!(invert(&blank()), [[0xffu8; 8]; 8]);
}

#[test]
fn transform_rotates_then_inverts() {
    let f = single(1, 2, 0x08);
    let mut expected = [[0xffu8; 8]; 8];
    expected[5][1] = 0xf7;
    assert_eq!(transform(Rotation::RotateAboutY, true, &f), expected);
    assert_eq!(transform(Rotation::RotateAboutY, false, &f), single(5, 1, 0x08));
    assert_eq!(transform(Rotation::Identity, false, &f), f);
    assert_eq!(transform(Rotation::Identity, true, &f), invert(&f));
}

#[test]
fn rotation_defaults_to_identity() {
    assert_eq!(Rotation::default(), Rotation::Identity);
}

#[test]
fn cells_are_addressed_by_layer_row_column() {
    let f = single(1, 2, 0x08);
    assert!(is_lit(&f, 1, 2, 3));
    assert!(!is_lit(&f, 2, 1, 3));
    assert!(!is_lit(&f, 1, 2, 4));
    assert!(!is_lit(&f, 8, 2, 3));
    assert!(!is_lit(&f, 1, 8, 3));
    assert!(!is_lit(&f, 1, 2, 8));
    let g = with_cell_lit(f, 7, 0, 7);
    assert_eq!(g[7][0], 0x80);
    assert_eq!(g[1][2], 0x08);
    assert_eq!(with_cell_lit(f, 1, 2, 0)[1][2], 0x09);
}
