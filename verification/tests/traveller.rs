use led_cube::frame::Frame;
use led_cube::traveller::Traveller;

fn cells(positions: &[(u8, u8, u8)]) -> Frame {
    let mut f = [[0u8; 8]; 8];
    for &(x, y, z) in positions {
        f[z as usize][x as usize] |= 1 << y;
    }
    f
}

fn distance(a: (u8, u8, u8), b: (u8, u8, u8)) -> u8 {
    a.0.abs_diff(b.0) + a.1.abs_diff(b.1) + a.2.abs_diff(b.2)
}

/// Walks the traveller straight down to the floor.
fn walk_to_floor(t: &mut Traveller) {
    while t.position().2 > 0 {
        let _ = t.advance(2);
    }
}

#[test]
fn starts_in_the_middle_heading_down() {
    let t = Traveller::new();
    assert_eq!(t.last_position(), (4, 4, 4));
    assert_eq!(t.position(), (4, 4, 3));
}

#[test]
fn goes_straight_on_when_bit_one_is_set() {
    let mut t = Traveller::new();
    assert_eq!(t.pick(2), (4, 4, 2));
    assert_eq!(t.pick(3), (4, 4, 2));
    assert_eq!(t.pick(0xffff_fffe), (4, 4, 2));
    let f = t.advance(2);
    assert_eq!(f, cells(&[(4, 4, 4), (4, 4, 3), (4, 4, 2)]));
    assert_eq!(t.last_position(), (4, 4, 3));
    assert_eq!(t.position(), (4, 4, 2));
}

#[test]
fn turns_when_bit_one_is_clear() {
    let t = Traveller::new();
    // Heading along Z: bit 2 picks X or Y, bit 0 the direction.
    assert_eq!(t.pick(0b000), (3, 4, 3));
    assert_eq!(t.pick(0b001), (5, 4, 3));
    assert_eq!(t.pick(0b100), (4, 3, 3));
    assert_eq!(t.pick(0b101), (4, 5, 3));
}

#[test]
fn turns_along_the_other_axes_when_heading_along_x() {
    let mut t = Traveller::new();
    let _ = t.advance(0b000);
    assert_eq!((t.last_position(), t.position()), ((4, 4, 3), (3, 4, 3)));
    assert_eq!(t.pick(0b010), (2, 4, 3));
    assert_eq!(t.pick(0b000), (3, 3, 3));
    assert_eq!(t.pick(0b001), (3, 5, 3));
    assert_eq!(t.pick(0b100), (3, 4, 2));
    assert_eq!(t.pick(0b101), (3, 4, 4));
}

#[test]
fn turns_along_the_other_axes_when_heading_along_y() {
    let mut t = Traveller::new();
    let _ = t.advance(0b101);
    assert_eq!((t.last_position(), t.position()), ((4, 4, 3), (4, 5, 3)));
    assert_eq!(t.pick(0b010), (4, 6, 3));
    assert_eq!(t.pick(0b000), (3, 5, 3));
    assert_eq!(t.pick(0b001), (5, 5, 3));
    assert_eq!(t.pick(0b100), (4, 5, 2));
    assert_eq!(t.pick(0b101), (4, 5, 4));
}

#[test]
fn must_turn_at_a_wall() {
    let mut t = Traveller::new();
    walk_to_floor(&mut t);
    assert_eq!((t.last_position(), t.position()), ((4, 4, 1), (4, 4, 0)));
    // Facing the floor, bit 1 picks the axis of the turn.
    assert_eq!(t.pick(0b000), (3, 4, 0));
    assert_eq!(t.pick(0b001), (5, 4, 0));
    assert_eq!(t.pick(0b010), (4, 3, 0));
    assert_eq!(t.pick(0b011), (4, 5, 0));
    assert_eq!(t.pick(0b110), (4, 3, 0));
}

#[test]
fn steps_away_from_a_wall_when_turning_along_it() {
    let mut t = Traveller::new();
    walk_to_floor(&mut t);
    // Turn to head along X, then keep going to the wall at x = 0.
    let _ = t.advance(0b000);
    while t.position().0 > 0 {
        let _ = t.advance(0b010);
    }
    assert_eq!((t.last_position(), t.position()), ((1, 4, 0), (0, 4, 0)));
    // A turn along Z at z = 0 can only go up, whatever the direction bit says.
    assert_eq!(t.pick(0b010), (0, 4, 1));
    assert_eq!(t.pick(0b011), (0, 4, 1));
    assert_eq!(t.pick(0b000), (0, 3, 0));
    assert_eq!(t.pick(0b001), (0, 5, 0));
}

#[test]
fn advance_lights_the_last_three_positions() {
    let mut t = Traveller::new();
    let f = t.advance(0b001);
    assert_eq!(f, cells(&[(4, 4, 4), (4, 4, 3), (5, 4, 3)]));
    let mut expected = [[0u8; 8]; 8];
    expected[4][4] = 0x10;
    expected[3][4] = 0x10;
    expected[3][5] = 0x10;
    assert_eq!(f, expected);
    let g = t.advance(0b010);
    assert_eq!(g, cells(&[(4, 4, 3), (5, 4, 3), (6, 4, 3)]));
}

#[test]
fn never_leaves_the_cube_nor_turns_back() {
    let mut t = Traveller::new();
    let mut choice: u32 = 0x9e37_79b9;
    for _ in 0..20_000 {
        choice = choice.wrapping_mul(1_664_525).wrapping_add(1_013_904_223);
        let before_last = t.last_position();
        let before = t.position();
        let f = t.advance(choice >> 13);
        let now = t.position();
        assert_eq!(t.last_position(), before);
        assert!(now.0 < 8 && now.1 < 8 && now.2 < 8);
        assert_eq!(distance(before, now), 1);
        assert_ne!(now, before_last);
        assert_eq!(f, cells(&[before_last, before, now]));
    }
}

#[test]
fn random_walk_moves_one_step_at_a_time() {
    let mut t = Traveller::new();
    for _ in 0..2_000 {
        let before_last = t.last_position();
        let before = t.position();
        let f = t.next_frame();
        let now = t.position();
        assert_eq!(t.last_position(), before);
        assert!(now.0 < 8 && now.1 < 8 && now.2 < 8);
        assert_eq!(distance(before, now), 1);
        assert_ne!(now, before_last);
        assert_eq!(f, cells(&[before_last, before, now]));
    }
}
