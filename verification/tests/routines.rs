use led_cube::frame::{is_lit, Frame};
use led_cube::index::Index;
use led_cube::routines::{
    AllOn, Chess, CycleLayers, DiagonalPlane, MiniCube, OneCol, OneLayer, OneOn, OneRow, Wave,
};

const INDICES: [Index; 8] = [
    Index::Zero,
    Index::One,
    Index::Two,
    Index::Three,
    Index::Four,
    Index::Five,
    Index::Six,
    Index::Seven,
];

fn from_cells(cells: impl Fn(usize, usize, usize) -> bool) -> Frame {
    let mut f = [[0u8; 8]; 8];
    for z in 0..8 {
        for x in 0..8 {
            for y in 0..8 {
                if cells(z, x, y) {
                    f[z][x] |= 1 << y;
                }
            }
        }
    }
    f
}

#[test]
fn index_converts_to_its_number() {
    for (n, i) in INDICES.iter().enumerate() {
        assert_eq!(u8::from(*i), n as u8);
    }
    let seven: u8 = Index::Seven.into();
    assert_eq!(seven, 7);
}

#[test]
fn all_on_lights_everything() {
    assert_eq!(AllOn::new().frame(), [[255u8; 8]; 8]);
}

#[test]
fn one_on_lights_one_cell() {
    let f = OneOn::new(Index::Two, Index::Five, Index::Six).frame();
    let mut expected = [[0u8; 8]; 8];
    expected[6][2] = 0b0010_0000;
    assert_eq!(f, expected);
    for row in INDICES {
        for col in INDICES {
            for layer in INDICES {
                let f = OneOn::new(row, col, layer).frame();
                let (r, c, l) = (u8::from(row), u8::from(col), u8::from(layer));
                assert_eq!(
                    f,
                    from_cells(|z, x, y| z == l as usize && x == r as usize && y == c as usize)
                );
            }
        }
    }
}

#[test]
fn one_row_lights_a_row_in_every_layer() {
    let f = OneRow::new(Index::Three).frame();
    assert_eq!(f, [[0, 0, 0, 255, 0, 0, 0, 0]; 8]);
    for row in INDICES {
        let r = u8::from(row) as usize;
        assert_eq!(OneRow::new(row).frame(), from_cells(|_, x, _| x == r));
    }
}

#[test]
fn one_col_lights_a_column_in_every_layer() {
    let f = OneCol::new(Index::Four).frame();
    assert_eq!(f, [[0x10u8; 8]; 8]);
    for col in INDICES {
        let c = u8::from(col) as usize;
        assert_eq!(OneCol::new(col).frame(), from_cells(|_, _, y| y == c));
    }
}

#[test]
fn one_layer_lights_a_layer() {
    let f = OneLayer::new(Index::One).frame();
    let mut expected = [[0u8; 8]; 8];
    expected[1] = [255; 8];
    assert_eq!(f, expected);
    for layer in INDICES {
        let l = u8::from(layer) as usize;
        assert_eq!(OneLayer::new(layer).frame(), from_cells(|z, _, _| z == l));
    }
}

#[test]
fn chess_alternates_within_a_layer() {
    let f = Chess::new().frame();
    assert_eq!(f, [[0xaa, 0x55, 0xaa, 0x55, 0xaa, 0x55, 0xaa, 0x55]; 8]);
    assert_eq!(f, from_cells(|_, x, y| (x + y) % 2 == 1));
}

#[test]
fn cycle_layers_climbs_then_pauses() {
    let mut cycle = CycleLayers::new();
    for round in 0..3 {
        for z in 0..8 {
            let mut expected = [[0u8; 8]; 8];
            expected[z] = [255; 8];
            assert_eq!(cycle.next_frame(), expected, "round {} layer {}", round, z);
        }
        assert_eq!(cycle.next_frame(), [[0u8; 8]; 8]);
    }
}

#[test]
fn diagonal_plane_moves_across() {
    let plane = DiagonalPlane::new(false);
    assert_eq!(plane.period(), 8);
    assert_eq!(plane.frame_at(0), [[0x01, 0x02, 0x04, 0x08, 0x10, 0x20, 0x40, 0x80]; 8]);
    assert_eq!(plane.frame_at(1), [[0x02, 0x04, 0x08, 0x10, 0x20, 0x40, 0x80, 0x01]; 8]);
    assert_eq!(plane.frame_at(7), [[0x80, 0x01, 0x02, 0x04, 0x08, 0x10, 0x20, 0x40]; 8]);
    for tick in 0..40 {
        let s = tick % 8;
        assert_eq!(plane.frame_at(tick), from_cells(|_, x, y| y == (x + s) % 8));
    }
}

#[test]
fn diagonal_plane_reflects() {
    let plane = DiagonalPlane::new(true);
    assert_eq!(plane.period(), 15);
    let slants = [0, 1, 2, 3, 4, 5, 6, 7, 7, 6, 5, 4, 3, 2, 1];
    for tick in 0..45 {
        let s = slants[tick % 15];
        assert_eq!(plane.frame_at(tick), from_cells(|_, x, y| y == (x + s) % 8));
    }
    assert_eq!(plane.frame_at(8), plane.frame_at(7));
    assert_eq!(plane.frame_at(14), plane.frame_at(1));
    assert_eq!(plane.frame_at(15), plane.frame_at(0));
}

#[test]
fn wave_slides_the_template() {
    let template: [[u8; 12]; 8] = [
        [0, 0, 0, 0, 0, 255, 255, 0, 0, 0, 0, 0],
        [0, 0, 0, 0, 255, 0, 0, 255, 0, 0, 0, 0],
        [0, 0, 0, 255, 0, 0, 0, 0, 255, 0, 0, 0],
        [0, 0, 0, 255, 0, 0, 0, 0, 255, 0, 0, 0],
        [0, 0, 255, 0, 0, 0, 0, 0, 0, 255, 0, 0],
        [0, 0, 255, 0, 0, 0, 0, 0, 0, 255, 0, 0],
        [0, 255, 0, 0, 0, 0, 0, 0, 0, 0, 255, 0],
        [255, 0, 0, 0, 0, 0, 0, 0, 0, 0, 0, 255],
    ];
    let mut wave = Wave::new();
    let first = wave.next_frame();
    assert_eq!(
        first,
        [
            [0, 0, 0, 0, 0, 255, 255, 0],
            [0, 0, 0, 0, 255, 0, 0, 255],
            [0, 0, 0, 255, 0, 0, 0, 0],
            [0, 0, 0, 255, 0, 0, 0, 0],
            [0, 0, 255, 0, 0, 0, 0, 0],
            [0, 0, 255, 0, 0, 0, 0, 0],
            [0, 255, 0, 0, 0, 0, 0, 0],
            [255, 0, 0, 0, 0, 0, 0, 0],
        ]
    );
    for tick in 1..200usize {
        let f = wave.next_frame();
        for z in 0..8 {
            for x in 0..8 {
                assert_eq!(f[z][x], template[z][(tick % 96 + x) % 12]);
            }
        }
        if tick % 12 == 0 {
            assert_eq!(f, first);
        }
    }
}

#[test]
fn mini_cube_is_two_nested_cubes() {
    let f = MiniCube::new().frame();
    assert_eq!(
        f,
        [
            [255, 129, 129, 129, 129, 129, 129, 255],
            [129, 66, 0, 0, 0, 0, 66, 129],
            [129, 0, 60, 36, 36, 60, 0, 129],
            [129, 0, 36, 0, 0, 36, 0, 129],
            [129, 0, 36, 0, 0, 36, 0, 129],
            [129, 0, 60, 36, 36, 60, 0, 129],
            [129, 66, 0, 0, 0, 0, 66, 129],
            [255, 129, 129, 129, 129, 129, 129, 255],
        ]
    );
    assert!(is_lit(&f, 0, 0, 0));
    assert!(is_lit(&f, 2, 2, 2));
    assert!(!is_lit(&f, 3, 3, 3));
}
