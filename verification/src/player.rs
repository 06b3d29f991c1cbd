//! The player: continuous pose in grid units, input state, movement
//! integration, and the movement-resolution step that keeps the pose on a
//! walkable cell.

use vstd::prelude::*;

use crate::fixed::{scale_dir, spec_scale_dir, ONE};
use crate::grid::{Grid, MARKER, WALL};

verus! {

/// Bound on pose coordinates accepted by one movement step.
pub const POS_CAP: i64 = 0x100_0000_0000;

/// Bound on the heading angle kept by rotation.
pub const ANGLE_CAP: i64 = 0x100_0000_0000;

/// A movement or rotation direction.
#[derive(Clone, Copy, Debug, PartialEq, Eq, Structural)]
pub enum Direction {
    Forward,
    Back,
    Right,
    Left,
}

/// The control surface's current intent: strafe, walk, and turn signs.
pub struct InputState {
    pub x: i8,
    pub y: i8,
    pub a: i8,
}

impl InputState {
    /// The idle input state.
    pub fn new() -> (s: InputState)
        ensures
            s.x == 0 && s.y == 0 && s.a == 0,
    {
        InputState { x: 0, y: 0, a: 0 }
    }

    /// The three intent signs.
    pub fn destruct(&self) -> (r: (i8, i8, i8))
        ensures
            r == (self.x, self.y, self.a),
    {
        (self.x, self.y, self.a)
    }
}

/// The player's pose: Q16 position and angles, with the input state.
pub struct Player {
    pub pos_x: i64,
    pub pos_y: i64,
    pub angle: i64,
    pub fov: i64,
    pub speed: i64,
    pub controller: InputState,
}

/// How far one step moves, along one axis: the direction component times
/// the distance covered in `dt`.
pub open spec fn step_delta(c: int, speed: int, dt: int) -> int {
    spec_scale_dir(c, speed * dt / (ONE as int))
}

/// A pose after one movement step in the given direction, with the
/// heading's cosine and sine supplied as Q16 values.
pub open spec fn spec_step(px: int, py: int, dir: Direction, speed: int, dt: int, cos_a: int,
    sin_a: int) -> (int, int) {
    match dir {
        Direction::Forward => (px + step_delta(cos_a, speed, dt), py + step_delta(sin_a, speed, dt)),
        Direction::Back => (px - step_delta(cos_a, speed, dt), py - step_delta(sin_a, speed, dt)),
        Direction::Left => (px + step_delta(sin_a, speed, dt), py - step_delta(cos_a, speed, dt)),
        Direction::Right => (px - step_delta(sin_a, speed, dt), py + step_delta(cos_a, speed, dt)),
    }
}

/// How far one rotation step turns.
pub open spec fn spec_rot_delta(speed: int, dt: int) -> int {
    (speed * dt / (ONE as int)) * 3 / 4
}

/// Bounds under which pose arithmetic stays exact.
pub open spec fn pose_wf(p: Player) -> bool {
    &&& -POS_CAP <= p.pos_x <= POS_CAP
    &&& -POS_CAP <= p.pos_y <= POS_CAP
    &&& -ANGLE_CAP <= p.angle <= ANGLE_CAP
    &&& 0 <= p.fov <= 8 * ONE
    &&& 0 <= p.speed <= 16 * ONE
}

impl Player {
    /// A player at the given Q16 position, facing along the x-axis with a
    /// quarter-turn field of view.
    pub fn new(x: i64, y: i64) -> (p: Player)
        requires
            -POS_CAP <= x <= POS_CAP,
            -POS_CAP <= y <= POS_CAP,
        ensures
            p.pos_x == x,
            p.pos_y == y,
            p.angle == 0,
            p.fov == 102944,
            p.speed == 2 * ONE,
            p.controller.x == 0 && p.controller.y == 0 && p.controller.a == 0,
            pose_wf(p),
    {
        Player {
            pos_x: x,
            pos_y: y,
            angle: 0,
            fov: 102944,
            speed: 2 * ONE,
            controller: InputState::new(),
        }
    }

    /// One movement step: advances the position along the heading (or its
    /// perpendicular) by the distance covered in `dt`.
    pub fn step(&mut self, dir: Direction, dt: i64, cos_a: i64, sin_a: i64)
        requires
            -2 * POS_CAP <= old(self).pos_x <= 2 * POS_CAP,
            -2 * POS_CAP <= old(self).pos_y <= 2 * POS_CAP,
            0 <= old(self).speed <= 16 * ONE,
            0 <= dt <= ONE,
            -ONE <= cos_a <= ONE,
            -ONE <= sin_a <= ONE,
        ensures
            (final(self).pos_x as int, final(self).pos_y as int) == spec_step(
                old(self).pos_x as int, old(self).pos_y as int, dir, old(self).speed as int,
                dt as int, cos_a as int, sin_a as int),
            final(self).angle == old(self).angle,
            final(self).fov == old(self).fov,
            final(self).speed == old(self).speed,
            final(self).controller == old(self).controller,
            final(self).pos_x - old(self).pos_x <= 16 * ONE,
            old(self).pos_x - final(self).pos_x <= 16 * ONE,
            final(self).pos_y - old(self).pos_y <= 16 * ONE,
            old(self).pos_y - final(self).pos_y <= 16 * ONE,
    {
        proof {
            assert(0 <= self.speed * dt <= 16 * ONE * ONE) by (nonlinear_arith)
                requires
                    0 <= self.speed <= 16 * ONE,
                    0 <= dt <= ONE,
            ;
            vstd::arithmetic::div_mod::lemma_div_pos_is_pos(self.speed * dt, ONE as int);
            vstd::arithmetic::div_mod::lemma_div_is_ordered(self.speed * dt, 16 * ONE * ONE,
                ONE as int);
            vstd::arithmetic::div_mod::lemma_div_multiples_vanish(16 * ONE, ONE as int);
        }
        let change: i64 = (self.speed * dt) / ONE;
        let dx: i64 = scale_dir(cos_a, change);
        let dy: i64 = scale_dir(sin_a, change);
        match dir {
            Direction::Forward => {
                self.pos_x = self.pos_x + dx;
                self.pos_y = self.pos_y + dy;
            },
            Direction::Back => {
                self.pos_x = self.pos_x - dx;
                self.pos_y = self.pos_y - dy;
            },
            Direction::Left => {
                self.pos_x = self.pos_x + dy;
                self.pos_y = self.pos_y - dx;
            },
            Direction::Right => {
                self.pos_x = self.pos_x - dy;
                self.pos_y = self.pos_y + dx;
            },
        }
    }

    /// One rotation step: turns the heading at three quarters of the
    /// movement speed; directions other than left and right do nothing.
    pub fn rotate(&mut self, dir: Direction, dt: i64)
        requires
            -2 * ANGLE_CAP <= old(self).angle <= 2 * ANGLE_CAP,
            0 <= old(self).speed <= 16 * ONE,
            0 <= dt <= ONE,
        ensures
            final(self).angle == match dir {
                Direction::Left => old(self).angle - spec_rot_delta(old(self).speed as int,
                    dt as int),
                Direction::Right => old(self).angle + spec_rot_delta(old(self).speed as int,
                    dt as int),
                _ => old(self).angle as int,
            },
            final(self).pos_x == old(self).pos_x,
            final(self).pos_y == old(self).pos_y,
            final(self).fov == old(self).fov,
            final(self).speed == old(self).speed,
            final(self).controller == old(self).controller,
            final(self).angle - old(self).angle <= 16 * ONE,
            old(self).angle - final(self).angle <= 16 * ONE,
    {
        proof {
            assert(0 <= self.speed * dt <= 16 * ONE * ONE) by (nonlinear_arith)
                requires
                    0 <= self.speed <= 16 * ONE,
                    0 <= dt <= ONE,
            ;
            vstd::arithmetic::div_mod::lemma_div_pos_is_pos(self.speed * dt, ONE as int);
            vstd::arithmetic::div_mod::lemma_div_is_ordered(self.speed * dt, 16 * ONE * ONE,
                ONE as int);
            vstd::arithmetic::div_mod::lemma_div_multiples_vanish(16 * ONE, ONE as int);
        }
        let change: i64 = (self.speed * dt) / ONE;
        proof {
            vstd::arithmetic::div_mod::lemma_div_pos_is_pos(change * 3, 4);
            vstd::arithmetic::div_mod::lemma_div_is_ordered(change * 3, 16 * ONE * 3, 4);
        }
        let delta: i64 = (change * 3) / 4;
        match dir {
            Direction::Left => {
                self.angle = self.angle - delta;
            },
            Direction::Right => {
                self.angle = self.angle + delta;
            },
            _ => {},
        }
    }

    /// Applies the input state: strafe by its x sign, walk by its y sign,
    /// then turn by its a sign.
    pub fn handle_input(&mut self, dt: i64, cos_a: i64, sin_a: i64)
        requires
            pose_wf(*old(self)),
            0 <= dt <= ONE,
            -ONE <= cos_a <= ONE,
            -ONE <= sin_a <= ONE,
        ensures
            ({
                let p = *old(self);
                let speed = p.speed as int;
                let s1 = if p.controller.x > 0 {
                    spec_step(p.pos_x as int, p.pos_y as int, Direction::Right, speed, dt as int,
                        cos_a as int, sin_a as int)
                } else if p.controller.x < 0 {
                    spec_step(p.pos_x as int, p.pos_y as int, Direction::Left, speed, dt as int,
                        cos_a as int, sin_a as int)
                } else {
                    (p.pos_x as int, p.pos_y as int)
                };
                let s2 = if p.controller.y > 0 {
                    spec_step(s1.0, s1.1, Direction::Forward, speed, dt as int, cos_a as int,
                        sin_a as int)
                } else if p.controller.y < 0 {
                    spec_step(s1.0, s1.1, Direction::Back, speed, dt as int, cos_a as int,
                        sin_a as int)
                } else {
                    s1
                };
                let a2 = if p.controller.a > 0 {
                    p.angle + spec_rot_delta(speed, dt as int)
                } else if p.controller.a < 0 {
                    p.angle - spec_rot_delta(speed, dt as int)
                } else {
                    p.angle as int
                };
                &&& final(self).pos_x == s2.0
                &&& final(self).pos_y == s2.1
                &&& final(self).angle == a2
                &&& final(self).fov == p.fov
                &&& final(self).speed == p.speed
                &&& final(self).controller == p.controller
            }),
    {
        let (x, y, a) = self.controller.destruct();
        if x > 0 {
            self.step(Direction::Right, dt, cos_a, sin_a);
        } else if x < 0 {
            self.step(Direction::Left, dt, cos_a, sin_a);
        }
        if y > 0 {
            self.step(Direction::Forward, dt, cos_a, sin_a);
        } else if y < 0 {
            self.step(Direction::Back, dt, cos_a, sin_a);
        }
        if a > 0 {
            self.rotate(Direction::Right, dt);
        } else if a < 0 {
            self.rotate(Direction::Left, dt);
        }
    }

    /// The ray heading of one screen column: the leftmost column looks
    /// half a field of view left of the heading, the rightmost half a
    /// field of view right.
    pub fn column_angle(&self, x: usize, screen_w: usize) -> (a: i64)
        requires
            pose_wf(*self),
            1 <= screen_w <= 65536,
            x <= screen_w,
        ensures
            a == self.angle - self.fov / 2 + x * self.fov / (screen_w as int),
    {
        proof {
            assert(0 <= x * self.fov <= 65536 * (8 * ONE)) by (nonlinear_arith)
                requires
                    0 <= x <= 65536,
                    0 <= self.fov <= 8 * ONE,
            ;
            vstd::arithmetic::div_mod::lemma_div_pos_is_pos(x * self.fov, screen_w as int);
            vstd::arithmetic::div_mod::lemma_multiply_divide_le(x * self.fov, screen_w as int,
                8 * ONE * 65536);
        }
        let frac: i64 = ((x as i64) * self.fov) / (screen_w as i64);
        self.angle - self.fov / 2 + frac
    }
}

/// The movement-resolution step: accepts the attempted position when it
/// lies inside the grid on a non-wall cell, and otherwise rolls back to
/// the old position; moves the player marker to the resolved cell.
pub fn resolve_move(grid: &mut Grid, old_x: i64, old_y: i64, new_x: i64, new_y: i64)
    -> (pos: (i64, i64))
    requires
        old(grid).wf(),
        0 <= old_x < old(grid).w() * ONE,
        0 <= old_y < old(grid).h() * ONE,
        -POS_CAP <= new_x <= POS_CAP,
        -POS_CAP <= new_y <= POS_CAP,
        old(grid).cell(old_x as int / (ONE as int), old_y as int / (ONE as int)) == MARKER,
    ensures
        final(grid).wf(),
        final(grid).w() == old(grid).w(),
        final(grid).h() == old(grid).h(),
        ({
            let accepted = 0 <= new_x < old(grid).w() * ONE && 0 <= new_y < old(grid).h() * ONE
                && old(grid).cell(new_x as int / (ONE as int), new_y as int / (ONE as int))
                != WALL;
            &&& pos == if accepted { (new_x, new_y) } else { (old_x, old_y) }
            &&& 0 <= pos.0 < old(grid).w() * ONE
            &&& 0 <= pos.1 < old(grid).h() * ONE
            &&& final(grid).cell(pos.0 as int / (ONE as int), pos.1 as int / (ONE as int))
                == MARKER
            &&& !final(grid).wall_at(pos.0 as int / (ONE as int), pos.1 as int / (ONE as int))
        }),
{
    let w: usize = grid.width();
    let h: usize = grid.height();
    let ocx: i64 = old_x / ONE;
    let ocy: i64 = old_y / ONE;
    proof {
        lemma_cell_of_pos(old_x as int, old(grid).w());
        lemma_cell_of_pos(old_y as int, old(grid).h());
    }
    let accepted: bool = if new_x >= 0 && new_x < (w as i64) * ONE && new_y >= 0 && new_y < (h
        as i64) * ONE {
        let ncx: i64 = new_x / ONE;
        let ncy: i64 = new_y / ONE;
        proof {
            lemma_cell_of_pos(new_x as int, grid.w());
            lemma_cell_of_pos(new_y as int, grid.h());
        }
        !grid.is_wall(ncx, ncy)
    } else {
        false
    };
    if accepted {
        let ncx: i64 = new_x / ONE;
        let ncy: i64 = new_y / ONE;
        proof {
            lemma_cell_of_pos(new_x as int, grid.w());
            lemma_cell_of_pos(new_y as int, grid.h());
        }
        if ncx != ocx || ncy != ocy {
            proof {
                grid.lemma_single_marker(ocx as int, ocy as int, ncx as int, ncy as int);
                grid.lemma_cell_tag(ncx as int, ncy as int);
            }
            grid.move_marker(ocx as usize, ocy as usize, ncx as usize, ncy as usize);
        }
        (new_x, new_y)
    } else {
        (old_x, old_y)
    }
}

/// A Q16 coordinate inside [0, side * ONE) names a cell inside [0, side).
proof fn lemma_cell_of_pos(p: int, side: int)
    requires
        0 <= p < side * ONE,
        1 <= side,
    ensures
        0 <= p / (ONE as int) < side,
{
    vstd::arithmetic::div_mod::lemma_div_pos_is_pos(p, ONE as int);
    assert(side * ONE == (ONE as int) * side) by (nonlinear_arith);
    vstd::arithmetic::div_mod::lemma_multiply_divide_lt(p, ONE as int, side);
}

} // verus!
