use led_cube::frame::{blank, Frame};
use led_cube::random_routines::{layer_from_bits, LittleBlips, Rain, RandomFlip};

fn checkered() -> Frame {
    let mut f = [[0u8; 8]; 8];
    for z in 0..8 {
        for x in 0..8 {
            for y in 0..8 {
                if (x + y + z) % 2 == 0 {
                    f[z][x] |= 1 << y;
                }
            }
        }
    }
    f
}

fn differing_cells(a: &Frame, b: &Frame) -> u32 {
    let mut n = 0;
    for z in 0..8 {
        for x in 0..8 {
            n += (a[z][x] ^ b[z][x]).count_ones();
        }
    }
    n
}

#[test]
fn layer_from_bits_is_big_endian() {
    assert_eq!(
        layer_from_bits(0x0123_4567_89ab_cdef),
        [0x01, 0x23, 0x45, 0x67, 0x89, 0xab, 0xcd, 0xef]
    );
    assert_eq!(layer_from_bits(0), [0; 8]);
    assert_eq!(layer_from_bits(u64::MAX), [0xff; 8]);
    assert_eq!(layer_from_bits(1), [0, 0, 0, 0, 0, 0, 0, 1]);
    for x in [7u64, 0xdead_beef, 0x8000_0000_0000_0000, 0x1122_3344_5566_7788] {
        assert_eq!(layer_from_bits(x), x.to_be_bytes());
    }
}

#[test]
fn rain_falls_one_layer_per_frame() {
    let mut rain = Rain::new();
    let first = rain.advance(0x0102_0304_0506_0708);
    let mut expected = blank();
    expected[7] = [1, 2, 3, 4, 5, 6, 7, 8];
    assert_eq!(first, expected);

    let second = rain.advance(0xffff_0000_ffff_0000);
    let mut expected = blank();
    expected[6] = [1, 2, 3, 4, 5, 6, 7, 8];
    expected[7] = [0xff, 0xff, 0, 0, 0xff, 0xff, 0, 0];
    assert_eq!(second, expected);

    let mut previous = second;
    for k in 0..20u64 {
        let f = rain.advance(k * 0x0101_0101_0101_0101);
        for z in 0..7 {
            assert_eq!(f[z], previous[z + 1]);
        }
        assert_eq!(f[7], [k as u8; 8]);
        previous = f;
    }
}

#[test]
fn rain_drops_leave_at_the_bottom() {
    let mut rain = Rain::new();
    let _ = rain.advance(u64::MAX);
    for k in 1..8 {
        let f = rain.advance(0);
        assert_eq!(f[7 - k], [0xff; 8]);
    }
    assert_eq!(rain.advance(0), blank());
}

#[test]
fn random_rain_shifts_the_old_layers_down() {
    let mut rain = Rain::new();
    let mut previous = blank();
    for _ in 0..50 {
        let f = rain.next_frame();
        for z in 0..7 {
            assert_eq!(f[z], previous[z + 1]);
        }
        previous = f;
    }
}

#[test]
fn random_flip_starts_checkered() {
    let mut flip = RandomFlip::new();
    // Toggle one cell and back to look at the state.
    let once = flip.flip(0);
    let back = flip.flip(0);
    assert_eq!(back, checkered());
    assert_eq!(back[0], [0x55, 0xaa, 0x55, 0xaa, 0x55, 0xaa, 0x55, 0xaa]);
    assert_eq!(back[1], [0xaa, 0x55, 0xaa, 0x55, 0xaa, 0x55, 0xaa, 0x55]);
    assert_eq!(once[0][0], 0x54);
}

#[test]
fn flip_toggles_the_chosen_cell() {
    let mut flip = RandomFlip::new();
    // layer = 5, row = 3, column = 6
    let choice: u32 = 5 + (3 << 3) + (6 << 6);
    let f = flip.flip(choice);
    let mut expected = checkered();
    expected[5][3] ^= 1 << 6;
    assert_eq!(f, expected);

    // Bits above the ninth do not matter.
    let g = flip.flip(choice | 0xffff_fe00);
    assert_eq!(g, checkered());

    let h = flip.flip(0x1ff);
    let mut expected = checkered();
    expected[7][7] ^= 0x80;
    assert_eq!(h, expected);
}

#[test]
fn random_flip_changes_one_cell_at_a_time() {
    let mut flip = RandomFlip::new();
    let mut previous = checkered();
    for _ in 0..100 {
        let f = flip.next_frame();
        assert_eq!(differing_cells(&f, &previous), 1);
        previous = f;
    }
}

#[test]
fn little_blips_keep_the_bits_that_four_draws_share() {
    assert_eq!(
        LittleBlips::layer_from_draws(
            0xffff_ffff_ffff_ffff,
            0x0f0f_0f0f_0f0f_0f0f,
            0x00ff_00ff_00ff_00ff,
            0x0123_4567_89ab_cdef
        ),
        [0x00, 0x03, 0x00, 0x07, 0x00, 0x0b, 0x00, 0x0f]
    );
    let mut draws = [u64::MAX; 32];
    draws[4] = 0x0100_0000_0000_0080;
    draws[31] = 0;
    let f = LittleBlips::frame_from_draws(&draws);
    let mut expected = [[0xffu8; 8]; 8];
    expected[1] = [0x01, 0, 0, 0, 0, 0, 0, 0x80];
    expected[7] = [0; 8];
    assert_eq!(f, expected);
}

#[test]
fn little_blips_are_sparse() {
    let mut blips = LittleBlips::new();
    let mut lit = 0;
    for _ in 0..64 {
        lit += differing_cells(&blips.next_frame(), &blank());
    }
    // One cell in sixteen on average: 2048 of 32768.
    assert!(lit > 1024 && lit < 4096, "{} cells lit", lit);
}
