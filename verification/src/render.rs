//! Per-frame visual output: rebuilding the wall texture from the sample
//! history, perspective projection of hit distances, and the colored
//! screen-space segments emitted for every screen column.

use vstd::prelude::*;

use crate::fixed::{ONE, div_pos};
use crate::grid::Grid;
use crate::history::SampleHistory;
use crate::raycast::{cast_ray, spec_cast, spec_tex, RayHit, RayOutcome, DIST_CAP};
use crate::texture::{row_of, spec_sample, spec_scaled, Color, Texture};

verus! {

/// Largest screen height accepted by the projection, in pixels.
pub const SCREEN_MAX: i64 = 16384;

/// Screen coordinates of emitted segments are clamped into
/// [-CEIL_CAP, CEIL_CAP]; walls degenerately close to the eye project far
/// beyond any real screen and are cut off there.
pub const CEIL_CAP: i64 = 0x100_0000_0000;

/// The background texels of a cleared texture.
pub open spec fn background(w: int, h: int) -> Seq<Color> {
    Seq::new((w * h) as nat, |i: int| Color { r: 255, g: 255, b: 255, a: 255 })
}

/// The texels after drawing a waveform trace of `samples` onto `texels`:
/// sample `k` paints the trace color at column `k` modulo the width, at
/// the row its value maps to.
pub open spec fn paint(texels: Seq<Color>, w: int, h: int, samples: Seq<i32>) -> Seq<Color>
    decreases samples.len(),
{
    if samples.len() == 0 {
        texels
    } else {
        let k = samples.len() - 1;
        paint(texels, w, h, samples.drop_last()).update(
            k % w + w * row_of(samples[k] as int, h),
            Color { r: 0, g: 0, b: 0, a: 255 },
        )
    }
}

/// Rebuilds the wall texture from the sample history: clear to the
/// background, then draw the oscilloscope-style trace, one texel per
/// stored sample.
pub fn render_waveform(tex: &mut Texture, hist: &SampleHistory)
    requires
        old(tex).wf(),
    ensures
        final(tex).wf(),
        final(tex).w() == old(tex).w(),
        final(tex).h() == old(tex).h(),
        final(tex).texels() == paint(background(old(tex).w(), old(tex).h()), old(tex).w(),
            old(tex).h(), hist.view()),
{
    tex.clear();
    proof {
        assert(tex.texels() =~= background(tex.w(), tex.h()));
    }
    let n: usize = hist.len();
    let mut i: usize = 0;
    while i < n
        invariant
            tex.wf(),
            tex.w() == old(tex).w(),
            tex.h() == old(tex).h(),
            i <= n,
            n == hist.view().len(),
            tex.texels() == paint(background(tex.w(), tex.h()), tex.w(), tex.h(),
                hist.view().take(i as int)),
        decreases n - i,
    {
        let v: i32 = hist.get(i);
        let w: usize = tex.width();
        let h: usize = tex.height();
        let col: usize = i % w;
        let cv: i64 = if (v as i64) < -ONE {
            -ONE
        } else if (v as i64) > ONE {
            ONE
        } else {
            v as i64
        };
        let half: i64 = (h / 2) as i64;
        proof {
            assert(0 <= (cv + ONE) * half <= 131072 * 2048) by (nonlinear_arith)
                requires
                    0 <= cv + ONE <= 131072,
                    0 <= half <= 2048,
            ;
            vstd::arithmetic::div_mod::lemma_div_pos_is_pos((cv + ONE) * half + ONE / 2,
                ONE as int);
        }
        let r0: i64 = div_pos((cv + ONE) * half + ONE / 2, ONE);
        let row: usize = if r0 >= h as i64 { h - 1 } else { r0 as usize };
        proof {
            assert(row == row_of(v as int, h as int));
            assert(row < h) by {
                if r0 < h as i64 {
                    assert(0 <= r0);
                }
            }
        }
        tex.set_color(col, row, Color::black());
        proof {
            let pre = hist.view().take(i as int);
            let cur = hist.view().take(i + 1);
            assert(cur.drop_last() =~= pre);
            assert(cur[i as int] == hist.view()[i as int]);
        }
        i = i + 1;
    }
    proof {
        assert(hist.view().take(n as int) =~= hist.view());
    }
}

/// The projected top of a wall column at the given hit distance.
pub open spec fn spec_ceil(dist: int, sh: int) -> int {
    sh * ONE / 2 - sh * ONE * ONE / dist
}

/// The distance-based shading factor, clamped into [0, ONE].
pub open spec fn shade_of(dist: int, rd: int) -> int {
    let c = ONE - dist * ONE / rd;
    if c < 0 {
        0
    } else if c > ONE {
        ONE as int
    } else {
        c
    }
}

/// Projects a hit distance onto the screen: the Q16 ceiling and floor
/// heights of the wall column, and the shading factor.
///
/// The shading factor is `1 - dist / rd`; where the hit lies beyond the
/// render distance it is clamped to zero (and to ONE from above), a
/// choice this library makes so that shaded colors stay well defined.
pub fn project_column(dist: i64, screen_h: i64, rd: i64) -> (res: (i64, i64, i64))
    requires
        1 <= dist <= DIST_CAP,
        1 <= screen_h <= SCREEN_MAX,
        rd >= 1,
    ensures
        res.0 == spec_ceil(dist as int, screen_h as int),
        res.1 == screen_h * ONE - spec_ceil(dist as int, screen_h as int),
        res.2 == shade_of(dist as int, rd as int),
        0 <= res.2 <= ONE,
{
    let shq: i64 = screen_h * ONE;
    let half: i64 = shq / 2;
    proof {
        vstd::arithmetic::div_mod::lemma_div_pos_is_pos(shq * ONE, dist as int);
        vstd::arithmetic::div_mod::lemma_div_is_ordered(0, shq * ONE, dist as int);
        vstd::arithmetic::div_mod::lemma_div_is_ordered_by_denominator(shq * ONE, 1, dist as int);
        vstd::arithmetic::div_mod::lemma_div_multiples_vanish(shq * ONE, 1);
        vstd::arithmetic::div_mod::lemma_div_pos_is_pos(dist * ONE, rd as int);
    }
    let drop: i64 = div_pos(shq * ONE, dist);
    let ceil: i64 = half - drop;
    let floor: i64 = shq - ceil;
    let fr: i64 = div_pos(dist * ONE, rd);
    let c: i64 = if fr > ONE { 0 } else { ONE - fr };
    proof {
        assert(c == shade_of(dist as int, rd as int));
    }
    (ceil, floor, c)
}

/// One colored vertical screen segment of a rendered column, in Q16
/// screen coordinates.
#[derive(Clone, Copy, Debug, PartialEq, Eq, Structural)]
pub struct ColumnSegment {
    pub y0: i64,
    pub y1: i64,
    pub r: u8,
    pub g: u8,
    pub b: u8,
    pub a: u8,
}

/// A screen coordinate clamped into the emission range.
pub open spec fn clamp_screen(v: int) -> int {
    if v < -CEIL_CAP {
        -(CEIL_CAP as int)
    } else if v > CEIL_CAP {
        CEIL_CAP as int
    } else {
        v
    }
}

/// The segments of one rendered column: the wall span from ceiling to
/// floor cut into one segment per texture row, each sampled from the
/// texture at the hit's wall-local coordinate and shaded.
pub open spec fn spec_segments(t: Texture, u: int, ceil: int, floor: int, shade: int) -> Seq<
    ColumnSegment,
> {
    let c0 = clamp_screen(ceil);
    let f0 = clamp_screen(floor);
    let line = if f0 - c0 < 0 { 0 } else { f0 - c0 };
    Seq::new(t.h() as nat, |k: int| {
        let ty = k * ONE / t.h();
        let ty2 = (k + 1) * ONE / t.h();
        let col = spec_scaled(spec_sample(t, u, ty), shade);
        ColumnSegment {
            y0: (c0 + ty * line / (ONE as int)) as i64,
            y1: (c0 + ty2 * line / (ONE as int)) as i64,
            r: col.r,
            g: col.g,
            b: col.b,
            a: col.a,
        }
    })
}

/// Emits the colored segments of one screen column from a wall hit.
pub fn render_column(tex: &Texture, u: i64, ceil: i64, floor: i64, shade: i64) -> (segs: Vec<
    ColumnSegment,
>)
    requires
        tex.wf(),
        0 <= shade <= ONE,
    ensures
        segs@ == spec_segments(*tex, u as int, ceil as int, floor as int, shade as int),
{
    let c0: i64 = if ceil < -CEIL_CAP {
        -CEIL_CAP
    } else if ceil > CEIL_CAP {
        CEIL_CAP
    } else {
        ceil
    };
    let f0: i64 = if floor < -CEIL_CAP {
        -CEIL_CAP
    } else if floor > CEIL_CAP {
        CEIL_CAP
    } else {
        floor
    };
    let line: i64 = if f0 - c0 < 0 { 0 } else { f0 - c0 };
    let h: usize = tex.height();
    let ghost target = spec_segments(*tex, u as int, ceil as int, floor as int, shade as int);
    let mut segs: Vec<ColumnSegment> = Vec::new();
    let mut k: usize = 0;
    while k < h
        invariant
            tex.wf(),
            0 <= shade <= ONE,
            h == tex.h(),
            k <= h,
            0 <= line <= 2 * CEIL_CAP,
            -CEIL_CAP <= c0 <= CEIL_CAP,
            line == ({
                let cc = clamp_screen(ceil as int);
                let ff = clamp_screen(floor as int);
                if ff - cc < 0 { 0int } else { ff - cc }
            }),
            c0 == clamp_screen(ceil as int),
            target == spec_segments(*tex, u as int, ceil as int, floor as int, shade as int),
            segs@.len() == k,
            forall|j: int| 0 <= j < k ==> #[trigger] segs@[j] == target[j],
        decreases h - k,
    {
        proof {
            lemma_row_frac(k as int, h as int);
            lemma_row_frac(k as int + 1, h as int);
        }
        let ty: i64 = div_pos((k as i64) * ONE, h as i64);
        let ty2: i64 = div_pos((k as i64 + 1) * ONE, h as i64);
        proof {
            assert(0 <= ty * line <= ONE * line && 0 <= ty2 * line <= ONE * line)
                by (nonlinear_arith)
                requires
                    0 <= ty <= ONE,
                    0 <= ty2 <= ONE,
                    0 <= line,
            ;
            vstd::arithmetic::div_mod::lemma_div_pos_is_pos(ty * line, ONE as int);
            vstd::arithmetic::div_mod::lemma_div_pos_is_pos(ty2 * line, ONE as int);
            vstd::arithmetic::div_mod::lemma_div_is_ordered(ty * line, ONE * line, ONE as int);
            vstd::arithmetic::div_mod::lemma_div_is_ordered(ty2 * line, ONE * line, ONE as int);
            vstd::arithmetic::div_mod::lemma_div_multiples_vanish(line as int, ONE as int);
        }
        let y0: i64 = c0 + div_pos(ty * line, ONE);
        let y1: i64 = c0 + div_pos(ty2 * line, ONE);
        let col: Color = tex.sample_color_weighted(u, ty, shade);
        segs.push(ColumnSegment { y0, y1, r: col.r, g: col.g, b: col.b, a: col.a });
        proof {
            assert(segs@[k as int] == target[k as int]);
        }
        k = k + 1;
    }
    proof {
        assert(segs@ =~= target);
    }
    segs
}

/// A texture-row fraction `k * ONE / h` lies in [0, ONE] for `k <= h`.
proof fn lemma_row_frac(k: int, h: int)
    requires
        1 <= h,
        0 <= k <= h,
    ensures
        0 <= k * ONE / h <= ONE,
{
    assert(0 <= k * ONE <= h * ONE) by (nonlinear_arith)
        requires
            0 <= k <= h,
    ;
    vstd::arithmetic::div_mod::lemma_div_pos_is_pos(k * ONE, h);
    vstd::arithmetic::div_mod::lemma_div_is_ordered(k * ONE, h * ONE, h);
    assert(h * ONE == h * (ONE as int));
    vstd::arithmetic::div_mod::lemma_div_multiples_vanish(ONE as int, h);
}

/// The full visual contract of one screen column: what a cast ray makes
/// the renderer draw there. A miss, or a hit at the degenerate distance
/// zero, draws nothing.
pub open spec fn spec_frame_column(g: Grid, t: Texture, px: int, py: int, dx: int, dy: int,
    rd: int, sh: int) -> Seq<ColumnSegment> {
    match spec_cast(g, px, py, dx, dy, rd) {
        RayOutcome::Miss => Seq::empty(),
        RayOutcome::Hit { dist, cx, cy } => {
            if dist < 1 {
                Seq::empty()
            } else {
                let u = spec_tex(px, py, dx, dy, dist, cx, cy);
                spec_segments(t, u, spec_ceil(dist, sh), sh * ONE - spec_ceil(dist, sh),
                    shade_of(dist, rd))
            }
        },
    }
}

/// Renders one whole frame: casts a ray for every screen column direction
/// and emits that column's segments.
pub fn render_frame(grid: &Grid, tex: &Texture, px: i64, py: i64, dirs: &Vec<(i64, i64)>,
    rd: i64, screen_h: i64) -> (cols: Vec<Vec<ColumnSegment>>)
    requires
        grid.wf(),
        tex.wf(),
        0 <= px < grid.w() * ONE,
        0 <= py < grid.h() * ONE,
        rd >= 1,
        1 <= screen_h <= SCREEN_MAX,
        forall|i: int| 0 <= i < dirs@.len() ==> {
            &&& -ONE <= (#[trigger] dirs@[i]).0 <= ONE
            &&& -ONE <= dirs@[i].1 <= ONE
            &&& !(dirs@[i].0 == 0 && dirs@[i].1 == 0)
        },
    ensures
        cols@.len() == dirs@.len(),
        forall|i: int| 0 <= i < dirs@.len() ==> (#[trigger] cols@[i])@ == spec_frame_column(
            *grid, *tex, px as int, py as int, dirs@[i].0 as int, dirs@[i].1 as int, rd as int,
            screen_h as int),
{
    let mut cols: Vec<Vec<ColumnSegment>> = Vec::new();
    let n: usize = dirs.len();
    let mut i: usize = 0;
    while i < n
        invariant
            grid.wf(),
            tex.wf(),
            0 <= px < grid.w() * ONE,
            0 <= py < grid.h() * ONE,
            rd >= 1,
            1 <= screen_h <= SCREEN_MAX,
            n == dirs@.len(),
            i <= n,
            forall|j: int| 0 <= j < dirs@.len() ==> {
                &&& -ONE <= (#[trigger] dirs@[j]).0 <= ONE
                &&& -ONE <= dirs@[j].1 <= ONE
                &&& !(dirs@[j].0 == 0 && dirs@[j].1 == 0)
            },
            cols@.len() == i,
            forall|j: int| 0 <= j < i ==> (#[trigger] cols@[j])@ == spec_frame_column(*grid, *tex,
                px as int, py as int, dirs@[j].0 as int, dirs@[j].1 as int, rd as int,
                screen_h as int),
        decreases n - i,
    {
        let (dx, dy) = dirs[i];
        let hit = cast_ray(grid, px, py, dx, dy, rd);
        let segs: Vec<ColumnSegment> = match hit {
            RayHit::Miss => Vec::new(),
            RayHit::Hit { dist, cell_x: _, cell_y: _, tex: u } => {
                if dist < 1 {
                    Vec::new()
                } else {
                    let (ceil, floor, shade) = project_column(dist, screen_h, rd);
                    render_column(tex, u, ceil, floor, shade)
                }
            },
        };
        proof {
            assert(segs@ =~= spec_frame_column(*grid, *tex, px as int, py as int, dirs@[i as int].0 as int,
                dirs@[i as int].1 as int, rd as int, screen_h as int));
        }
        cols.push(segs);
        i = i + 1;
    }
    cols
}

} // verus!
