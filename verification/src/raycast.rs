//! Grid-traversal raycasting.
//!
//! For a ray from a fixed-point position along a fixed-point direction,
//! the traversal walks the occupancy grid, always advancing to the nearer
//! of the next x- or y-grid-line crossing, until a wall cell is entered or
//! the accumulated distance reaches the render distance. The executable
//! cast is proved equal to a recursive mathematical model of the walk.
//!
//! A direction component of zero gets the sentinel step `INF`, so the
//! traversal never steps across that axis and all arithmetic stays exact;
//! there is no non-finite value anywhere.

use vstd::prelude::*;

use crate::fixed::{ONE, INF, div_pos};
use crate::grid::Grid;

verus! {

/// Upper bound on traversal steps for one ray.
pub const MAX_STEPS: u32 = 4096;

/// Largest finite per-axis step length (reached when a component is
/// the smallest non-zero magnitude): `ONE * ONE`.
pub const STEP_CAP: i64 = 0x1_0000_0000;

/// Largest distance a traversal can accumulate within `MAX_STEPS` steps:
/// `(MAX_STEPS + 1) * STEP_CAP`.
pub const DIST_CAP: i64 = 4097 * 0x1_0000_0000;

/// Absolute value.
pub open spec fn abs_i(d: int) -> int {
    if d < 0 {
        -d
    } else {
        d
    }
}

/// Direction of grid stepping along one axis; a zero component steps
/// positive, though such a step is never taken.
pub open spec fn sign_of(d: int) -> int {
    if d < 0 {
        -1
    } else {
        1
    }
}

/// Ray length gained per whole cell crossed along one axis, in Q16:
/// the reciprocal of the component's magnitude, or `INF` for a zero
/// component (that axis is never crossed).
pub open spec fn inv_step(d: int) -> int {
    if d == 0 {
        INF as int
    } else {
        (ONE * ONE) / abs_i(d)
    }
}

/// Q16 distance from `p` to the first grid line in the direction of `d`.
pub open spec fn boundary_frac(p: int, d: int) -> int {
    if d < 0 {
        p % (ONE as int)
    } else {
        ONE - p % (ONE as int)
    }
}

/// Initial ray length to the first crossing along one axis.
pub open spec fn init_len(p: int, d: int) -> int {
    if d == 0 {
        INF as int
    } else {
        boundary_frac(p, d) * inv_step(d) / (ONE as int)
    }
}

/// The per-ray constants of a traversal.
pub struct DdaRay {
    pub sx: int,
    pub sy: int,
    pub step_x: int,
    pub step_y: int,
}

/// The mutable state of a traversal: current cell, ray lengths to the
/// next crossing on each axis, and the distance of the last step taken.
pub struct DdaState {
    pub cx: int,
    pub cy: int,
    pub lx: int,
    pub ly: int,
    pub dist: int,
}

/// Per-ray constants from a direction.
pub open spec fn ray_of(dx: int, dy: int) -> DdaRay {
    DdaRay {
        sx: inv_step(dx),
        sy: inv_step(dy),
        step_x: sign_of(dx),
        step_y: sign_of(dy),
    }
}

/// Traversal state before the first step.
pub open spec fn init_state(px: int, py: int, dx: int, dy: int) -> DdaState {
    DdaState {
        cx: px / (ONE as int),
        cy: py / (ONE as int),
        lx: init_len(px, dx),
        ly: init_len(py, dy),
        dist: 0,
    }
}

/// One traversal step: advance to the nearer of the two next crossings.
pub open spec fn dda_step(ray: DdaRay, s: DdaState) -> DdaState {
    if s.lx < s.ly {
        DdaState { cx: s.cx + ray.step_x, cy: s.cy, lx: s.lx + ray.sx, ly: s.ly, dist: s.lx }
    } else {
        DdaState { cx: s.cx, cy: s.cy + ray.step_y, lx: s.lx, ly: s.ly + ray.sy, dist: s.ly }
    }
}

/// What a cast ray reports.
pub enum RayOutcome {
    Hit { dist: int, cx: int, cy: int },
    Miss,
}

/// The traversal itself: step until a wall cell is entered, or until the
/// last step's distance has reached the render distance, or the step
/// budget is spent.
pub open spec fn dda_trace(g: Grid, ray: DdaRay, s: DdaState, rd: int, fuel: nat) -> RayOutcome
    decreases fuel,
{
    if fuel == 0 {
        RayOutcome::Miss
    } else if s.dist >= rd {
        RayOutcome::Miss
    } else {
        let s2 = dda_step(ray, s);
        if g.wall_at(s2.cx, s2.cy) {
            RayOutcome::Hit { dist: s2.dist, cx: s2.cx, cy: s2.cy }
        } else {
            dda_trace(g, ray, s2, rd, (fuel - 1) as nat)
        }
    }
}

/// The outcome of casting a ray from (px, py) along (dx, dy).
pub open spec fn spec_cast(g: Grid, px: int, py: int, dx: int, dy: int, rd: int) -> RayOutcome {
    dda_trace(g, ray_of(dx, dy), init_state(px, py, dx, dy), rd, MAX_STEPS as nat)
}

/// Face selection around the struck cell's center, by the doubled offset
/// (vx, vy) of the intersection from the center. The four half-open
/// angle quadrants of the compass; the center itself counts as east.
pub open spec fn face_east(vx: int, vy: int) -> bool {
    (vx > 0 && -vx <= vy < vx) || (vx == 0 && vy == 0)
}

/// Quadrant of angles in [pi/4, 3*pi/4).
pub open spec fn face_north(vx: int, vy: int) -> bool {
    vy > 0 && -vy < vx <= vy
}

/// Quadrant of angles in [-3*pi/4, -pi/4).
pub open spec fn face_south(vx: int, vy: int) -> bool {
    vy < 0 && vy <= vx < -vy
}

/// Quadrant of angles in [3*pi/4, pi] and [-pi, -3*pi/4).
pub open spec fn face_west(vx: int, vy: int) -> bool {
    vx < 0 && vx < vy <= -vx
}

/// Every doubled offset selects exactly one face.
pub proof fn lemma_faces_partition(vx: int, vy: int)
    ensures
        (if face_east(vx, vy) { 1int } else { 0int }) + (if face_north(vx, vy) { 1int } else { 0int })
            + (if face_south(vx, vy) { 1int } else { 0int }) + (if face_west(vx, vy) { 1int } else { 0int })
            == 1,
{
}

/// Clamp a raw wall-local coordinate into [0, ONE).
pub open spec fn clamp_tex(raw: int) -> int {
    if raw < 0 {
        0
    } else if raw >= ONE {
        ONE - 1
    } else {
        raw
    }
}

/// The wall-local texture coordinate of a hit: the fractional position of
/// the ray-wall intersection along the struck face, clamped into [0, ONE).
pub open spec fn spec_tex(px: int, py: int, dx: int, dy: int, dist: int, cx: int, cy: int) -> int {
    let ix = px + sign_of(dx) * (abs_i(dx) * dist / (ONE as int));
    let iy = py + sign_of(dy) * (abs_i(dy) * dist / (ONE as int));
    let vx = 2 * ix - (2 * cx + 1) * ONE;
    let vy = 2 * iy - (2 * cy + 1) * ONE;
    if face_north(vx, vy) || face_south(vx, vy) {
        clamp_tex(ix - cx * ONE)
    } else {
        clamp_tex(iy - cy * ONE)
    }
}

/// A cast ray's result: a wall hit with its distance, cell, and wall-local
/// texture coordinate, or a miss.
#[derive(Clone, Copy, Debug, PartialEq, Eq, Structural)]
pub enum RayHit {
    Hit { dist: i64, cell_x: i64, cell_y: i64, tex: i64 },
    Miss,
}

/// Casts one ray through the grid.
///
/// Position is Q16 inside the grid; the direction components are Q16 in
/// [-ONE, ONE], not both zero; `rd` is the positive render distance.
/// The result equals the mathematical traversal `spec_cast`; on a hit the
/// struck cell is a wall and the texture coordinate is exact and in range.
pub fn cast_ray(grid: &Grid, px: i64, py: i64, dx: i64, dy: i64, rd: i64) -> (r: RayHit)
    requires
        grid.wf(),
        0 <= px < grid.w() * ONE,
        0 <= py < grid.h() * ONE,
        -ONE <= dx <= ONE,
        -ONE <= dy <= ONE,
        !(dx == 0 && dy == 0),
        rd > 0,
    ensures
        (r is Miss) <==> (spec_cast(*grid, px as int, py as int, dx as int, dy as int, rd as int)
            is Miss),
        r matches RayHit::Hit { dist, cell_x, cell_y, tex } ==> {
            &&& spec_cast(*grid, px as int, py as int, dx as int, dy as int, rd as int)
                == (RayOutcome::Hit { dist: dist as int, cx: cell_x as int, cy: cell_y as int })
            &&& grid.wall_at(cell_x as int, cell_y as int)
            &&& 0 <= dist <= DIST_CAP
            &&& tex == spec_tex(px as int, py as int, dx as int, dy as int, dist as int,
                cell_x as int, cell_y as int)
            &&& 0 <= tex < ONE
        },
{
    let sx: i64 = if dx == 0 { INF } else { div_pos(ONE * ONE, if dx < 0 { -dx } else { dx }) };
    let sy: i64 = if dy == 0 { INF } else { div_pos(ONE * ONE, if dy < 0 { -dy } else { dy }) };
    proof {
        if dx != 0 {
            let adx = abs_i(dx as int);
            assert(1 <= adx <= ONE);
            vstd::arithmetic::div_mod::lemma_div_is_ordered_by_denominator(ONE * ONE, 1, adx);
            vstd::arithmetic::div_mod::lemma_div_is_ordered_by_denominator(ONE * ONE, adx, ONE as int);
            vstd::arithmetic::div_mod::lemma_div_multiples_vanish(ONE as int, ONE as int);
            vstd::arithmetic::div_mod::lemma_div_multiples_vanish(ONE * ONE, 1);
            assert(ONE <= sx <= STEP_CAP);
        }
        if dy != 0 {
            let ady = abs_i(dy as int);
            assert(1 <= ady <= ONE);
            vstd::arithmetic::div_mod::lemma_div_is_ordered_by_denominator(ONE * ONE, 1, ady);
            vstd::arithmetic::div_mod::lemma_div_is_ordered_by_denominator(ONE * ONE, ady, ONE as int);
            vstd::arithmetic::div_mod::lemma_div_multiples_vanish(ONE as int, ONE as int);
            vstd::arithmetic::div_mod::lemma_div_multiples_vanish(ONE * ONE, 1);
            assert(ONE <= sy <= STEP_CAP);
        }
    }
    let step_x: i64 = if dx < 0 { -1 } else { 1 };
    let step_y: i64 = if dy < 0 { -1 } else { 1 };
    let cx0: i64 = px / ONE;
    let cy0: i64 = py / ONE;
    let mut lx0: i64 = INF;
    if dx != 0 {
        let frac: i64 = if dx < 0 { px - cx0 * ONE } else { (cx0 + 1) * ONE - px };
        proof {
            assert(0 <= frac <= ONE);
            assert(0 <= frac * sx <= ONE * sx) by (nonlinear_arith)
                requires
                    0 <= frac <= ONE,
                    0 <= sx,
            ;
            vstd::arithmetic::div_mod::lemma_div_pos_is_pos(frac * sx, ONE as int);
            vstd::arithmetic::div_mod::lemma_div_is_ordered(frac * sx, ONE * sx, ONE as int);
            vstd::arithmetic::div_mod::lemma_div_multiples_vanish(sx as int, ONE as int);
        }
        lx0 = div_pos(frac * sx, ONE);
        proof {
            assert(0 <= lx0 <= sx);
        }
    }
    let mut ly0: i64 = INF;
    if dy != 0 {
        let frac: i64 = if dy < 0 { py - cy0 * ONE } else { (cy0 + 1) * ONE - py };
        proof {
            assert(0 <= frac <= ONE);
            assert(0 <= frac * sy <= ONE * sy) by (nonlinear_arith)
                requires
                    0 <= frac <= ONE,
                    0 <= sy,
            ;
            vstd::arithmetic::div_mod::lemma_div_pos_is_pos(frac * sy, ONE as int);
            vstd::arithmetic::div_mod::lemma_div_is_ordered(frac * sy, ONE * sy, ONE as int);
            vstd::arithmetic::div_mod::lemma_div_multiples_vanish(sy as int, ONE as int);
        }
        ly0 = div_pos(frac * sy, ONE);
        proof {
            assert(0 <= ly0 <= sy);
        }
    }
    let ghost ray = ray_of(dx as int, dy as int);
    let ghost target = spec_cast(*grid, px as int, py as int, dx as int, dy as int, rd as int);

    let mut cx: i64 = cx0;
    let mut cy: i64 = cy0;
    let mut lx: i64 = lx0;
    let mut ly: i64 = ly0;
    let mut dist: i64 = 0;
    let mut fuel: u32 = MAX_STEPS;
    let mut found = false;

    proof {
        assert(cx0 == px as int / (ONE as int));
        assert(ray.sx == sx && ray.sy == sy && ray.step_x == step_x && ray.step_y == step_y);
        assert(lx0 == init_len(px as int, dx as int)) by {
            if dx != 0 {
                assert(boundary_frac(px as int, dx as int) == (if dx < 0 {
                    px - cx0 * ONE
                } else {
                    (cx0 + 1) * ONE - px
                }));
            }
        }
        assert(ly0 == init_len(py as int, dy as int));
        assert(DdaState { cx: cx as int, cy: cy as int, lx: lx as int, ly: ly as int,
            dist: dist as int } == init_state(px as int, py as int, dx as int, dy as int));
        assert(sx * (1 + MAX_STEPS - fuel) == sx && sy * (1 + MAX_STEPS - fuel) == sy)
            by (nonlinear_arith)
            requires
                fuel == MAX_STEPS,
        ;
    }

    while fuel > 0 && !found && dist < rd
        invariant
            grid.wf(),
            -ONE <= dx <= ONE,
            -ONE <= dy <= ONE,
            !(dx == 0 && dy == 0),
            rd > 0,
            sx == inv_step(dx as int),
            sy == inv_step(dy as int),
            step_x == sign_of(dx as int),
            step_y == sign_of(dy as int),
            dx == 0 ==> sx == INF,
            dx != 0 ==> ONE <= sx <= STEP_CAP,
            dy == 0 ==> sy == INF,
            dy != 0 ==> ONE <= sy <= STEP_CAP,
            ray == ray_of(dx as int, dy as int),
            fuel <= MAX_STEPS,
            dx == 0 ==> lx == INF,
            dx != 0 ==> 0 <= lx <= sx * (1 + MAX_STEPS - fuel),
            dy == 0 ==> ly == INF,
            dy != 0 ==> 0 <= ly <= sy * (1 + MAX_STEPS - fuel),
            0 <= dist <= DIST_CAP,
            -2048 <= cx0 <= 2048,
            -2048 <= cy0 <= 2048,
            cx0 - (MAX_STEPS - fuel) <= cx <= cx0 + (MAX_STEPS - fuel),
            cy0 - (MAX_STEPS - fuel) <= cy <= cy0 + (MAX_STEPS - fuel),
            !found ==> dda_trace(*grid, ray, DdaState { cx: cx as int, cy: cy as int,
                lx: lx as int, ly: ly as int, dist: dist as int }, rd as int, fuel as nat)
                == target,
            found ==> target == (RayOutcome::Hit { dist: dist as int, cx: cx as int,
                cy: cy as int }) && grid.wall_at(cx as int, cy as int),
        decreases fuel,
    {
        let ghost s_pre = DdaState { cx: cx as int, cy: cy as int, lx: lx as int, ly: ly as int,
            dist: dist as int };
        proof {
            if dx != 0 {
                assert(sx * (1 + MAX_STEPS - fuel) <= STEP_CAP * (1 + MAX_STEPS - fuel)
                    <= STEP_CAP * (MAX_STEPS + 1)) by (nonlinear_arith)
                    requires
                        0 <= sx <= STEP_CAP,
                        fuel <= MAX_STEPS,
                ;
            }
            if dy != 0 {
                assert(sy * (1 + MAX_STEPS - fuel) <= STEP_CAP * (1 + MAX_STEPS - fuel)
                    <= STEP_CAP * (MAX_STEPS + 1)) by (nonlinear_arith)
                    requires
                        0 <= sy <= STEP_CAP,
                        fuel <= MAX_STEPS,
                ;
            }
        }
        if lx < ly {
            proof {
                assert(dx != 0);
            }
            cx = cx + step_x;
            dist = lx;
            lx = lx + sx;
            proof {
                assert(lx <= sx * (1 + MAX_STEPS - (fuel - 1))) by (nonlinear_arith)
                    requires
                        lx - sx <= sx * (1 + MAX_STEPS - fuel),
                        sx >= 0,
                        fuel >= 1,
                ;
                if dy != 0 {
                    assert(sy * (1 + MAX_STEPS - fuel) <= sy * (1 + MAX_STEPS - (fuel - 1)))
                        by (nonlinear_arith)
                        requires
                            sy >= 0,
                            fuel >= 1,
                    ;
                }
            }
        } else {
            proof {
                assert(dy != 0);
            }
            cy = cy + step_y;
            dist = ly;
            ly = ly + sy;
            proof {
                assert(ly <= sy * (1 + MAX_STEPS - (fuel - 1))) by (nonlinear_arith)
                    requires
                        ly - sy <= sy * (1 + MAX_STEPS - fuel),
                        sy >= 0,
                        fuel >= 1,
                ;
                if dx != 0 {
                    assert(sx * (1 + MAX_STEPS - fuel) <= sx * (1 + MAX_STEPS - (fuel - 1)))
                        by (nonlinear_arith)
                        requires
                            sx >= 0,
                            fuel >= 1,
                    ;
                }
            }
        }
        fuel = fuel - 1;
        let hit_wall = grid.is_wall(cx, cy);
        proof {
            assert(DdaState { cx: cx as int, cy: cy as int, lx: lx as int, ly: ly as int,
                dist: dist as int } == dda_step(ray, s_pre));
        }
        if hit_wall {
            found = true;
        }
    }

    if found {
        let adx: i64 = if dx < 0 { -dx } else { dx };
        let ady: i64 = if dy < 0 { -dy } else { dy };
        proof {
            assert(0 <= adx * dist <= ONE * DIST_CAP && 0 <= ady * dist <= ONE * DIST_CAP)
                by (nonlinear_arith)
                requires
                    0 <= adx <= ONE,
                    0 <= ady <= ONE,
                    0 <= dist <= DIST_CAP,
            ;
        }
        let ox: i64 = div_pos(adx * dist, ONE);
        let oy: i64 = div_pos(ady * dist, ONE);
        let ix: i64 = if dx < 0 { px - ox } else { px + ox };
        let iy: i64 = if dy < 0 { py - oy } else { py + oy };
        let vx2: i64 = 2 * ix - (2 * cx + 1) * ONE;
        let vy2: i64 = 2 * iy - (2 * cy + 1) * ONE;
        let ns = (vy2 > 0 && -vy2 < vx2 && vx2 <= vy2) || (vy2 < 0 && vy2 <= vx2 && vx2 < -vy2);
        let raw: i64 = if ns { ix - cx * ONE } else { iy - cy * ONE };
        let tex: i64 = if raw < 0 { 0 } else if raw >= ONE { ONE - 1 } else { raw };
        proof {
            let gix = px + sign_of(dx as int) * (abs_i(dx as int) * dist / (ONE as int));
            let giy = py + sign_of(dy as int) * (abs_i(dy as int) * dist / (ONE as int));
            assert(adx == abs_i(dx as int));
            assert(ox == abs_i(dx as int) * dist / (ONE as int));
            assert(oy == abs_i(dy as int) * dist / (ONE as int));
            assert(ix == gix);
            assert(iy == giy);
            assert(vx2 == 2 * gix - (2 * cx + 1) * ONE);
            assert(vy2 == 2 * giy - (2 * cy + 1) * ONE);
            assert(ns == (face_north(vx2 as int, vy2 as int) || face_south(vx2 as int, vy2 as int)));
            assert(tex == clamp_tex(raw as int));
            assert(tex == spec_tex(px as int, py as int, dx as int, dy as int, dist as int,
                cx as int, cy as int));
        }
        RayHit::Hit { dist, cell_x: cx, cell_y: cy, tex }
    } else {
        proof {
            assert(dda_trace(*grid, ray, DdaState { cx: cx as int, cy: cy as int, lx: lx as int,
                ly: ly as int, dist: dist as int }, rd as int, fuel as nat) is Miss);
        }
        RayHit::Miss
    }
}

/// The diagonal extent of one grid cell in Q16, rounded up.
pub const DIAG: i64 = 92682;

/// Helper for rays that never cross a vertical grid line: every step of
/// the traversal is a y-step, so the column never changes.
proof fn lemma_trace_fixed_column(g: Grid, ray: DdaRay, s: DdaState, rd: int, fuel: nat)
    requires
        s.lx == INF,
        0 <= ray.sy <= STEP_CAP,
        0 <= s.ly,
        s.ly + fuel * ray.sy < INF,
    ensures
        dda_trace(g, ray, s, rd, fuel) matches RayOutcome::Hit { dist, cx, cy } ==> cx == s.cx
            && dist >= 0 && dist < INF,
    decreases fuel,
{
    if fuel == 0 || s.dist >= rd {
    } else {
        assert(fuel * ray.sy >= 1 * ray.sy) by (nonlinear_arith)
            requires
                fuel >= 1,
                ray.sy >= 0,
        ;
        assert(s.ly < INF);
        let s2 = dda_step(ray, s);
        assert(s2.cx == s.cx && s2.ly == s.ly + ray.sy && s2.dist == s.ly);
        if !g.wall_at(s2.cx, s2.cy) {
            assert(s2.ly + (fuel - 1) * ray.sy == s.ly + fuel * ray.sy) by (nonlinear_arith)
                requires
                    s2.ly == s.ly + ray.sy,
                    fuel >= 1,
            ;
            lemma_trace_fixed_column(g, ray, s2, rd, (fuel - 1) as nat);
        }
    }
}

/// A ray whose x-component is zero behaves as if the x-step were
/// unboundedly large: the traversal only ever steps in y, every reported
/// distance is a finite non-negative value, and any hit lies in the
/// caster's own grid column.
pub proof fn lemma_zero_x_component(g: Grid, px: int, py: int, dy: int, rd: int)
    requires
        -ONE <= dy <= ONE,
        dy != 0,
    ensures
        spec_cast(g, px, py, 0, dy, rd) matches RayOutcome::Hit { dist, cx, cy } ==> {
            &&& cx == px / (ONE as int)
            &&& 0 <= dist < INF
        },
{
    let ray = ray_of(0, dy);
    let s0 = init_state(px, py, 0, dy);
    let ady = abs_i(dy);
    assert(1 <= ady <= ONE);
    vstd::arithmetic::div_mod::lemma_div_is_ordered_by_denominator(ONE * ONE, 1, ady);
    vstd::arithmetic::div_mod::lemma_div_multiples_vanish(ONE * ONE, 1);
    assert(0 <= ray.sy <= STEP_CAP);
    let frac = boundary_frac(py, dy);
    assert(0 <= frac <= ONE);
    assert(0 <= frac * ray.sy <= ONE * ray.sy) by (nonlinear_arith)
        requires
            0 <= frac <= ONE,
            0 <= ray.sy,
    ;
    vstd::arithmetic::div_mod::lemma_div_pos_is_pos(frac * ray.sy, ONE as int);
    vstd::arithmetic::div_mod::lemma_div_is_ordered(frac * ray.sy, ONE * ray.sy, ONE as int);
    vstd::arithmetic::div_mod::lemma_div_multiples_vanish(ray.sy, ONE as int);
    assert(0 <= s0.ly <= ray.sy);
    assert((MAX_STEPS as nat) * ray.sy <= (MAX_STEPS as nat) * STEP_CAP) by (nonlinear_arith)
        requires
            0 <= ray.sy <= STEP_CAP,
    ;
    assert(s0.ly + (MAX_STEPS as nat) * ray.sy < INF);
    lemma_trace_fixed_column(g, ray, s0, rd, MAX_STEPS as nat);
}

/// From a pose strictly inside a cell whose four side neighbors are all
/// walls, a near-unit ray hits a wall on its very first traversal step,
/// at a distance no more than the cell's diagonal extent.
pub proof fn lemma_enclosed_cell_hits(g: Grid, px: int, py: int, dx: int, dy: int, rd: int)
    requires
        g.wf(),
        -ONE <= dx <= ONE,
        -ONE <= dy <= ONE,
        dx * dx + dy * dy >= (ONE - 1) * (ONE - 1),
        rd > 0,
        px % (ONE as int) != 0,
        py % (ONE as int) != 0,
        g.wall_at(px / (ONE as int) - 1, py / (ONE as int)),
        g.wall_at(px / (ONE as int) + 1, py / (ONE as int)),
        g.wall_at(px / (ONE as int), py / (ONE as int) - 1),
        g.wall_at(px / (ONE as int), py / (ONE as int) + 1),
    ensures
        spec_cast(g, px, py, dx, dy, rd) is Hit,
        spec_cast(g, px, py, dx, dy, rd) matches RayOutcome::Hit { dist, cx, cy } ==> {
            &&& 0 <= dist <= DIAG
            &&& g.wall_at(cx, cy)
            &&& abs_i(cx - px / (ONE as int)) + abs_i(cy - py / (ONE as int)) == 1
        },
{
    let ray = ray_of(dx, dy);
    let s0 = init_state(px, py, dx, dy);
    let s1 = dda_step(ray, s0);

    // The larger direction component is at least ONE / sqrt(2), rounded up.
    let big = if abs_i(dx) >= abs_i(dy) { dx } else { dy };
    assert(abs_i(big) >= 46341) by (nonlinear_arith)
        requires
            -ONE <= dx <= ONE,
            -ONE <= dy <= ONE,
            dx * dx + dy * dy >= (ONE - 1) * (ONE - 1),
            big == (if abs_i(dx) >= abs_i(dy) { dx } else { dy }),
    ;

    // That component's step length is at most DIAG - 1.
    let sbig = inv_step(big);
    vstd::arithmetic::div_mod::lemma_div_is_ordered_by_denominator(ONE * ONE, 46341, abs_i(big));
    vstd::arithmetic::div_mod::lemma_fundamental_div_mod(ONE * ONE, 46341);
    vstd::arithmetic::div_mod::lemma_mod_bound(ONE * ONE, 46341);
    let q = (ONE * ONE) / 46341;
    assert(46341 * q <= ONE * ONE);
    assert(q <= 92681) by (nonlinear_arith)
        requires
            46341 * q <= 0x1_0000_0000,
    ;
    assert(sbig <= 92681);
    assert(0 <= sbig) by {
        vstd::arithmetic::div_mod::lemma_div_pos_is_pos(ONE * ONE, abs_i(big));
    }

    // The first crossing along that axis is within one whole step.
    let fracb = if big == dx { boundary_frac(px, dx) } else { boundary_frac(py, dy) };
    assert(0 <= fracb <= ONE);
    assert(0 <= fracb * sbig <= ONE * sbig) by (nonlinear_arith)
        requires
            0 <= fracb <= ONE,
            0 <= sbig,
    ;
    vstd::arithmetic::div_mod::lemma_div_pos_is_pos(fracb * sbig, ONE as int);
    vstd::arithmetic::div_mod::lemma_div_is_ordered(fracb * sbig, ONE * sbig, ONE as int);
    vstd::arithmetic::div_mod::lemma_div_multiples_vanish(sbig, ONE as int);
    if big == dx {
        assert(big != 0);
        assert(0 <= s0.lx <= sbig);
    } else {
        assert(big != 0);
        assert(0 <= s0.ly <= sbig);
    }

    // The first step is within the diagonal and both lengths are non-negative.
    let frax = boundary_frac(px, dx);
    let fray = boundary_frac(py, dy);
    if dx != 0 {
        assert(0 <= frax * inv_step(dx)) by (nonlinear_arith)
            requires
                0 <= frax,
                0 <= inv_step(dx),
        ;
        vstd::arithmetic::div_mod::lemma_div_pos_is_pos(frax * inv_step(dx), ONE as int);
    }
    if dy != 0 {
        assert(0 <= fray * inv_step(dy)) by (nonlinear_arith)
            requires
                0 <= fray,
                0 <= inv_step(dy),
        ;
        vstd::arithmetic::div_mod::lemma_div_pos_is_pos(fray * inv_step(dy), ONE as int);
    }
    assert(inv_step(dx) >= 0 && inv_step(dy) >= 0) by {
        if dx != 0 {
            vstd::arithmetic::div_mod::lemma_div_pos_is_pos(ONE * ONE, abs_i(dx));
        }
        if dy != 0 {
            vstd::arithmetic::div_mod::lemma_div_pos_is_pos(ONE * ONE, abs_i(dy));
        }
    }
    assert(0 <= s0.lx && 0 <= s0.ly);
    assert(s1.dist <= s0.lx && s1.dist <= s0.ly);
    assert(0 <= s1.dist <= 92681);

    // The stepped-into cell is one of the four walled side neighbors.
    let cx0 = px / (ONE as int);
    let cy0 = py / (ONE as int);
    assert(s0.cx == cx0 && s0.cy == cy0);
    assert(g.wall_at(s1.cx, s1.cy));
    assert(s0.dist == 0 < rd);
    assert(spec_cast(g, px, py, dx, dy, rd) == (RayOutcome::Hit { dist: s1.dist, cx: s1.cx, cy: s1.cy }));
}


/// How many traversal steps one axis can still take before its crossing
/// length reaches the render distance.
pub open spec fn steps_left(l: int, rd: int) -> int {
    if l < rd {
        (rd - l + ONE - 1) / (ONE as int)
    } else {
        0
    }
}

/// Stepping down by one whole ONE steps the quotient down by one.
proof fn lemma_div_shift_down(a: int)
    ensures
        (a - ONE) / (ONE as int) == a / (ONE as int) - 1,
{
    vstd::arithmetic::div_mod::lemma_fundamental_div_mod(a, ONE as int);
    vstd::arithmetic::div_mod::lemma_mod_bound(a, ONE as int);
    vstd::arithmetic::div_mod::lemma_fundamental_div_mod_converse(a - ONE, ONE as int,
        a / (ONE as int) - 1, a % (ONE as int));
}

/// A positive remaining distance needs at least one step.
proof fn lemma_steps_left_pos(l: int, rd: int)
    requires
        l < rd,
    ensures
        steps_left(l, rd) >= 1,
{
    vstd::arithmetic::div_mod::lemma_div_is_ordered(ONE as int, rd - l + ONE - 1, ONE as int);
    vstd::arithmetic::div_mod::lemma_div_multiples_vanish(1, ONE as int);
}

/// One step along an axis with a step length of at least ONE consumes at
/// least one of that axis's remaining steps.
proof fn lemma_steps_left_dec(l: int, step: int, rd: int)
    requires
        l < rd,
        step >= ONE,
    ensures
        steps_left(l + step, rd) <= steps_left(l, rd) - 1,
{
    lemma_steps_left_pos(l, rd);
    if l + step < rd {
        vstd::arithmetic::div_mod::lemma_div_is_ordered(rd - l - step + ONE - 1,
            rd - l - ONE + ONE - 1, ONE as int);
        lemma_div_shift_down(rd - l + ONE - 1);
    }
}

/// Steps are never negative.
proof fn lemma_steps_left_nonneg(l: int, rd: int)
    ensures
        steps_left(l, rd) >= 0,
{
    if l < rd {
        vstd::arithmetic::div_mod::lemma_div_pos_is_pos(rd - l + ONE - 1, ONE as int);
    }
}

/// With enough fuel for the distance still to cover, one more unit of
/// fuel cannot change what the traversal returns.
proof fn lemma_trace_fuel_stable(g: Grid, ray: DdaRay, s: DdaState, rd: int, fuel: nat)
    requires
        ray.sx >= ONE,
        ray.sy >= ONE,
        fuel >= steps_left(s.lx, rd) + steps_left(s.ly, rd) + 2,
    ensures
        dda_trace(g, ray, s, rd, fuel) == dda_trace(g, ray, s, rd, (fuel + 1) as nat),
    decreases fuel,
{
    lemma_steps_left_nonneg(s.lx, rd);
    lemma_steps_left_nonneg(s.ly, rd);
    if s.dist >= rd {
    } else {
        let s2 = dda_step(ray, s);
        if g.wall_at(s2.cx, s2.cy) {
        } else if s2.dist >= rd {
            assert(dda_trace(g, ray, s2, rd, (fuel - 1) as nat) is Miss);
            assert(dda_trace(g, ray, s2, rd, fuel) is Miss);
        } else {
            if s.lx < s.ly {
                assert(s2.dist == s.lx && s2.lx == s.lx + ray.sx && s2.ly == s.ly);
                lemma_steps_left_dec(s.lx, ray.sx, rd);
            } else {
                assert(s2.dist == s.ly && s2.ly == s.ly + ray.sy && s2.lx == s.lx);
                lemma_steps_left_dec(s.ly, ray.sy, rd);
            }
            lemma_steps_left_nonneg(s2.lx, rd);
            lemma_steps_left_nonneg(s2.ly, rd);
            lemma_trace_fuel_stable(g, ray, s2, rd, (fuel - 1) as nat);
        }
    }
}

/// A miss is the render-distance cutoff, never an exhausted step budget:
/// within the supported render distance, handing the traversal any larger
/// step budget returns the very same outcome.
pub proof fn lemma_miss_is_distance_cutoff(g: Grid, px: int, py: int, dx: int, dy: int, rd: int,
    extra: nat)
    requires
        -ONE <= dx <= ONE,
        -ONE <= dy <= ONE,
        !(dx == 0 && dy == 0),
        0 < rd <= 1024 * ONE,
    ensures
        dda_trace(g, ray_of(dx, dy), init_state(px, py, dx, dy), rd, (MAX_STEPS as nat) + extra)
            == spec_cast(g, px, py, dx, dy, rd),
    decreases extra,
{
    if extra > 0 {
        lemma_miss_is_distance_cutoff(g, px, py, dx, dy, rd, (extra - 1) as nat);
        let ray = ray_of(dx, dy);
        let s0 = init_state(px, py, dx, dy);
        lemma_ray_steps_at_least_one(dx);
        lemma_ray_steps_at_least_one(dy);
        lemma_init_len_nonneg(px, dx);
        lemma_init_len_nonneg(py, dy);
        assert(steps_left(s0.lx, rd) <= 1025) by {
            lemma_steps_left_small(s0.lx, rd);
        }
        assert(steps_left(s0.ly, rd) <= 1025) by {
            lemma_steps_left_small(s0.ly, rd);
        }
        lemma_steps_left_nonneg(s0.lx, rd);
        lemma_steps_left_nonneg(s0.ly, rd);
        lemma_trace_fuel_stable(g, ray, s0, rd, ((MAX_STEPS as nat) + extra - 1) as nat);
    }
}

/// Any per-axis step length is at least ONE.
proof fn lemma_ray_steps_at_least_one(d: int)
    requires
        -ONE <= d <= ONE,
    ensures
        inv_step(d) >= ONE,
{
    if d != 0 {
        vstd::arithmetic::div_mod::lemma_div_is_ordered_by_denominator(ONE * ONE, abs_i(d),
            ONE as int);
        vstd::arithmetic::div_mod::lemma_div_multiples_vanish(ONE as int, ONE as int);
    }
}

/// Initial crossing lengths are never negative.
proof fn lemma_init_len_nonneg(p: int, d: int)
    ensures
        init_len(p, d) >= 0,
{
    if d != 0 {
        let frac = boundary_frac(p, d);
        assert(0 <= frac);
        assert(0 <= inv_step(d)) by {
            vstd::arithmetic::div_mod::lemma_div_pos_is_pos(ONE * ONE, abs_i(d));
        }
        assert(0 <= frac * inv_step(d)) by (nonlinear_arith)
            requires
                0 <= frac,
                0 <= inv_step(d),
        ;
        vstd::arithmetic::div_mod::lemma_div_pos_is_pos(frac * inv_step(d), ONE as int);
    }
}

/// From a non-negative length, no more than 1025 steps remain within a
/// render distance of at most 1024 cells.
proof fn lemma_steps_left_small(l: int, rd: int)
    requires
        l >= 0,
        rd <= 1024 * ONE,
    ensures
        steps_left(l, rd) <= 1025,
{
    if l < rd {
        vstd::arithmetic::div_mod::lemma_div_is_ordered(rd - l + ONE - 1, 1024 * ONE + ONE - 1,
            ONE as int);
        vstd::arithmetic::div_mod::lemma_fundamental_div_mod_converse(1024 * ONE + ONE - 1,
            ONE as int, 1024, ONE - 1);
    }
}


} // verus!
