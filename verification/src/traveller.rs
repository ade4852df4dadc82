//! A moving snake: a lit cell that wanders through the cube one orthogonal
//! step at a time, trailing the two cells it came from.

use crate::entropy::{draw_u32, rng_from_entropy};
use crate::frame::{blank, frame_of, lemma_frame_of, lemma_frames_equal, lit, with_cell_lit, Frame};
use rand::rngs::SmallRng;
use vstd::prelude::*;

verus! {

/// One of the three directions of the cube.
pub enum Axis {
    /// Along the rows.
    X,
    /// Along the columns.
    Y,
    /// Along the layers.
    Z,
}

/// The coordinate of the position `p = (x, y, z)` along `axis`.
pub open spec fn coord(p: (int, int, int), axis: Axis) -> int {
    match axis {
        Axis::X => p.0,
        Axis::Y => p.1,
        Axis::Z => p.2,
    }
}

/// The position `p` with its coordinate along `axis` replaced by `v`.
pub open spec fn with_coord(p: (int, int, int), axis: Axis, v: int) -> (int, int, int) {
    match axis {
        Axis::X => (v, p.1, p.2),
        Axis::Y => (p.0, v, p.2),
        Axis::Z => (p.0, p.1, v),
    }
}

/// Whether every coordinate of `p` lies in the cube.
pub open spec fn inside(p: (int, int, int)) -> bool {
    0 <= p.0 < 8 && 0 <= p.1 < 8 && 0 <= p.2 < 8
}

/// Whether `a` and `b` are orthogonal neighbours: one step apart along
/// exactly one axis.
pub open spec fn adjacent(a: (int, int, int), b: (int, int, int)) -> bool {
    ||| (a.1 == b.1 && a.2 == b.2 && (a.0 == b.0 + 1 || b.0 == a.0 + 1))
    ||| (a.0 == b.0 && a.2 == b.2 && (a.1 == b.1 + 1 || b.1 == a.1 + 1))
    ||| (a.0 == b.0 && a.1 == b.1 && (a.2 == b.2 + 1 || b.2 == a.2 + 1))
}

/// The axis along which the step from `last` to `current` went, and whether
/// it went towards the lower indices.
pub open spec fn heading(last: (int, int, int), current: (int, int, int)) -> (Axis, bool) {
    if last.0 > current.0 {
        (Axis::X, true)
    } else if last.0 < current.0 {
        (Axis::X, false)
    } else if last.1 > current.1 {
        (Axis::Y, true)
    } else if last.1 < current.1 {
        (Axis::Y, false)
    } else if last.2 > current.2 {
        (Axis::Z, true)
    } else {
        (Axis::Z, false)
    }
}

/// The two axes across `axis`, in the order in which a turn considers them.
pub open spec fn across(axis: Axis) -> (Axis, Axis) {
    match axis {
        Axis::X => (Axis::Y, Axis::Z),
        Axis::Y => (Axis::X, Axis::Z),
        Axis::Z => (Axis::X, Axis::Y),
    }
}

/// One step from `p` along `axis`: away from the wall where `p` touches
/// one, otherwise towards the lower indices if `down`, else the higher.
pub open spec fn sidestep(p: (int, int, int), axis: Axis, down: bool) -> (int, int, int) {
    let c = coord(p, axis);
    with_coord(
        p,
        axis,
        if c == 7 {
            6
        } else if c == 0 {
            1
        } else if down {
            c - 1
        } else {
            c + 1
        },
    )
}

/// Where the traveller goes next, given where it was, where it is, and a
/// random `choice`.
///
/// Bit 0 of `choice` picks the direction of a turn. Facing a wall the
/// traveller must turn, and bit 1 picks the axis. Otherwise bit 1 decides
/// between turning and going straight on, and bit 2 picks the axis of a turn.
pub open spec fn next_position(
    last: (int, int, int),
    current: (int, int, int),
    choice: u32,
) -> (int, int, int) {
    let (axis, down) = heading(last, current);
    let c = coord(current, axis);
    let blocked = if down {
        c == 0
    } else {
        c == 7
    };
    let (first, second) = across(axis);
    let turn_down = choice & 1 == 0;
    if blocked {
        sidestep(
            current,
            if choice & 2 == 0 {
                first
            } else {
                second
            },
            turn_down,
        )
    } else if choice & 2 == 0 {
        sidestep(
            current,
            if choice & 4 == 0 {
                first
            } else {
                second
            },
            turn_down,
        )
    } else {
        with_coord(
            current,
            axis,
            if down {
                c - 1
            } else {
                c + 1
            },
        )
    }
}

/// The cells of the frame that shows the three positions `a`, `b` and `c`.
pub open spec fn trail_cells(a: (int, int, int), b: (int, int, int), c: (int, int, int)) -> spec_fn(
    int,
    int,
    int,
) -> bool {
    |z: int, x: int, y: int| (x, y, z) == a || (x, y, z) == b || (x, y, z) == c
}

/// The frame in which exactly the positions `a`, `b` and `c` are lit.
pub open spec fn trail_frame(a: (int, int, int), b: (int, int, int), c: (int, int, int)) -> Frame {
    frame_of(trail_cells(a, b, c))
}

/// The next position stays in the cube, is one orthogonal step from the
/// current one, and never goes back to where the traveller came from.
pub proof fn lemma_next_position_moves_on(
    last: (int, int, int),
    current: (int, int, int),
    choice: u32,
)
    requires
        inside(last),
        inside(current),
        adjacent(last, current),
    ensures
        inside(next_position(last, current, choice)),
        adjacent(current, next_position(last, current, choice)),
        next_position(last, current, choice) != last,
{
}

/// A wandering light with a tail of two.
pub struct Traveller {
    rng: SmallRng,
    last_x: u8,
    last_y: u8,
    last_z: u8,
    current_x: u8,
    current_y: u8,
    current_z: u8,
}

impl Traveller {
    /// Where the traveller was one step ago, as `(x, y, z)`.
    pub closed spec fn last(&self) -> (int, int, int) {
        (self.last_x as int, self.last_y as int, self.last_z as int)
    }

    /// Where the traveller is, as `(x, y, z)`.
    pub closed spec fn current(&self) -> (int, int, int) {
        (self.current_x as int, self.current_y as int, self.current_z as int)
    }

    /// Both positions lie in the cube, one orthogonal step apart.
    pub open spec fn wf(&self) -> bool {
        inside(self.last()) && inside(self.current()) && adjacent(self.last(), self.current())
    }

    /// A traveller in the middle of the cube, heading down, with a random
    /// generator seeded by the operating system.
    pub fn new() -> (t: Traveller)
        ensures
            t.wf(),
            t.last() == (4int, 4int, 4int),
            t.current() == (4int, 4int, 3int),
    {
        Traveller {
            rng: rng_from_entropy(),
            last_x: 4,
            last_y: 4,
            last_z: 4,
            current_x: 4,
            current_y: 4,
            current_z: 3,
        }
    }

    /// Where the traveller was one step ago, as `(x, y, z)`.
    pub fn last_position(&self) -> (p: (u8, u8, u8))
        ensures
            (p.0 as int, p.1 as int, p.2 as int) == self.last(),
    {
        (self.last_x, self.last_y, self.last_z)
    }

    /// Where the traveller is, as `(x, y, z)`.
    pub fn position(&self) -> (p: (u8, u8, u8))
        ensures
            (p.0 as int, p.1 as int, p.2 as int) == self.current(),
    {
        (self.current_x, self.current_y, self.current_z)
    }

    fn pick_x(&self, dir: bool) -> (p: (u8, u8, u8))
        requires
            self.wf(),
        ensures
            (p.0 as int, p.1 as int, p.2 as int) == sidestep(self.current(), Axis::X, dir),
    {
        if self.current_x == 7 {
            (6, self.current_y, self.current_z)
        } else if self.current_x == 0 {
            (1, self.current_y, self.current_z)
        } else if dir {
            (self.current_x - 1, self.current_y, self.current_z)
        } else {
            (self.current_x + 1, self.current_y, self.current_z)
        }
    }

    fn pick_y(&self, dir: bool) -> (p: (u8, u8, u8))
        requires
            self.wf(),
        ensures
            (p.0 as int, p.1 as int, p.2 as int) == sidestep(self.current(), Axis::Y, dir),
    {
        if self.current_y == 7 {
            (self.current_x, 6, self.current_z)
        } else if self.current_y == 0 {
            (self.current_x, 1, self.current_z)
        } else if dir {
            (self.current_x, self.current_y - 1, self.current_z)
        } else {
            (self.current_x, self.current_y + 1, self.current_z)
        }
    }

    fn pick_z(&self, dir: bool) -> (p: (u8, u8, u8))
        requires
            self.wf(),
        ensures
            (p.0 as int, p.1 as int, p.2 as int) == sidestep(self.current(), Axis::Z, dir),
    {
        if self.current_z == 7 {
            (self.current_x, self.current_y, 6)
        } else if self.current_z == 0 {
            (self.current_x, self.current_y, 1)
        } else if dir {
            (self.current_x, self.current_y, self.current_z - 1)
        } else {
            (self.current_x, self.current_y, self.current_z + 1)
        }
    }

    /// Pick a new pixel to light up while "moving" orthogonally.
    /// This avoids backtracking and stays inside the cube.
    pub fn pick(&self, choice: u32) -> (p: (u8, u8, u8))
        requires
            self.wf(),
        ensures
            (p.0 as int, p.1 as int, p.2 as int) == next_position(
                self.last(),
                self.current(),
                choice,
            ),
            p.0 < 8 && p.1 < 8 && p.2 < 8,
    {
        proof {
            lemma_next_position_moves_on(self.last(), self.current(), choice);
        }
        let dir = choice & 1 == 0;

        if self.last_x > self.current_x {
            // Hit the wall
            if self.current_x == 0 {
                if choice & 2 == 0 {
                    self.pick_y(dir)
                } else {
                    self.pick_z(dir)
                }
            } else {
                if choice & 2 == 0 {
                    if choice & 4 == 0 {
                        self.pick_y(dir)
                    } else {
                        self.pick_z(dir)
                    }
                } else {
                    (self.current_x - 1, self.current_y, self.current_z)
                }
            }
        } else if self.last_x < self.current_x {
            // Hit the wall
            if self.current_x == 7 {
                if choice & 2 == 0 {
                    self.pick_y(dir)
                } else {
                    self.pick_z(dir)
                }
            } else {
                if choice & 2 == 0 {
                    if choice & 4 == 0 {
                        self.pick_y(dir)
                    } else {
                        self.pick_z(dir)
                    }
                } else {
                    (self.current_x + 1, self.current_y, self.current_z)
                }
            }
        } else if self.last_y > self.current_y {
            // Hit the wall
            if self.current_y == 0 {
                if choice & 2 == 0 {
                    self.pick_x(dir)
                } else {
                    self.pick_z(dir)
                }
            } else {
                if choice & 2 == 0 {
                    if choice & 4 == 0 {
                        self.pick_x(dir)
                    } else {
                        self.pick_z(dir)
                    }
                } else {
                    (self.current_x, self.current_y - 1, self.current_z)
                }
            }
        } else if self.last_y < self.current_y {
            // Hit the wall
            if self.current_y == 7 {
                if choice & 2 == 0 {
                    self.pick_x(dir)
                } else {
                    self.pick_z(dir)
                }
            } else {
                if choice & 2 == 0 {
                    if choice & 4 == 0 {
                        self.pick_x(dir)
                    } else {
                        self.pick_z(dir)
                    }
                } else {
                    (self.current_x, self.current_y + 1, self.current_z)
                }
            }
        } else if self.last_z > self.current_z {
            // Hit the wall
            if self.current_z == 0 {
                if choice & 2 == 0 {
                    self.pick_x(dir)
                } else {
                    self.pick_y(dir)
                }
            } else {
                if choice & 2 == 0 {
                    if choice & 4 == 0 {
                        self.pick_x(dir)
                    } else {
                        self.pick_y(dir)
                    }
                } else {
                    (self.current_x, self.current_y, self.current_z - 1)
                }
            }
        } else {
            // Hit the wall
            if self.current_z == 7 {
                if choice & 2 == 0 {
                    self.pick_x(dir)
                } else {
                    self.pick_y(dir)
                }
            } else {
                if choice & 2 == 0 {
                    if choice & 4 == 0 {
                        self.pick_x(dir)
                    } else {
                        self.pick_y(dir)
                    }
                } else {
                    (self.current_x, self.current_y, self.current_z + 1)
                }
            }
        }
    }

    /// Takes the step that `choice` decides and returns the frame that
    /// shows the traveller's last three positions.
    pub fn advance(&mut self, choice: u32) -> (frame: Frame)
        requires
            old(self).wf(),
        ensures
            final(self).wf(),
            final(self).last() == old(self).current(),
            final(self).current() == next_position(old(self).last(), old(self).current(), choice),
            frame == trail_frame(old(self).last(), old(self).current(), final(self).current()),
    {
        let (next_x, next_y, next_z) = self.pick(choice);
        proof {
            lemma_next_position_moves_on(self.last(), self.current(), choice);
        }

        let mut frame: Frame = blank();
        frame = with_cell_lit(frame, self.last_z, self.last_x, self.last_y);
        frame = with_cell_lit(frame, self.current_z, self.current_x, self.current_y);
        frame = with_cell_lit(frame, next_z, next_x, next_y);
        proof {
            let a = self.last();
            let b = self.current();
            let c = (next_x as int, next_y as int, next_z as int);
            lemma_frame_of(trail_cells(a, b, c));
            lemma_frames_equal(frame, trail_frame(a, b, c));
        }

        self.last_x = self.current_x;
        self.last_y = self.current_y;
        self.last_z = self.current_z;

        self.current_x = next_x;
        self.current_y = next_y;
        self.current_z = next_z;

        frame
    }

    /// Draws a random choice and takes the step it decides.
    pub fn next_frame(&mut self) -> (frame: Frame)
        requires
            old(self).wf(),
        ensures
            final(self).wf(),
            final(self).last() == old(self).current(),
            exists|choice: u32|
                final(self).current() == #[trigger] next_position(
                    old(self).last(),
                    old(self).current(),
                    choice,
                ),
            frame == trail_frame(old(self).last(), old(self).current(), final(self).current()),
    {
        let choice = draw_u32(&mut self.rng);
        self.advance(choice)
    }
}

} // verus!
