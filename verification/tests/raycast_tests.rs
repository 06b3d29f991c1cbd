use wavecast::fixed::ONE;
use wavecast::grid::Grid;
use wavecast::raycast::{cast_ray, RayHit, DIAG};
use wavecast::render::{project_column, render_column, render_frame};
use wavecast::texture::{Color, Texture};

fn walled_box() -> Grid {
    // A 3x3 grid: a single empty cell surrounded by walls.
    let tags = vec![35, 35, 35, 35, 46, 35, 35, 35, 35];
    Grid::new(3, 3, tags, 1, 1)
}

#[test]
fn enclosed_cell_hits_within_diagonal() {
    let g = walled_box();
    // Strictly inside the center cell, direction close to a unit vector
    // at 45 degrees: both components ONE / sqrt(2), rounded up.
    let px = 85197i64; // 1.3 cells
    let py = 111411i64; // 1.7 cells
    let hit = cast_ray(&g, px, py, 46341, 46341, 20 * ONE);
    match hit {
        RayHit::Hit { dist, cell_x, cell_y, tex } => {
            assert!(dist >= 0);
            assert!(dist <= DIAG);
            let step = (cell_x - 1).abs() + (cell_y - 1).abs();
            assert_eq!(step, 1, "first hit must be a side neighbor");
            assert!(tex >= 0 && tex < ONE);
        }
        RayHit::Miss => panic!("an enclosed pose must hit"),
    }
}

#[test]
fn enclosed_cell_hits_every_axis_direction() {
    let g = walled_box();
    let px = 98304i64; // 1.5 cells
    let py = 98304i64;
    let dirs = [(ONE, 0i64), (-ONE, 0), (0, ONE), (0, -ONE)];
    for &(dx, dy) in dirs.iter() {
        match cast_ray(&g, px, py, dx, dy, 20 * ONE) {
            RayHit::Hit { dist, .. } => {
                assert_eq!(dist, ONE / 2, "half a cell to each surrounding wall");
            }
            RayHit::Miss => panic!("an enclosed pose must hit"),
        }
    }
}

#[test]
fn zero_x_component_stays_in_column() {
    let g = walled_box();
    let hit = cast_ray(&g, 85197, 98304, 0, ONE, 20 * ONE);
    match hit {
        RayHit::Hit { dist, cell_x, cell_y, .. } => {
            assert_eq!(cell_x, 1, "a vertical ray never leaves its column");
            assert_eq!(cell_y, 2);
            assert_eq!(dist, ONE / 2);
        }
        RayHit::Miss => panic!("the wall below must be hit"),
    }
}

#[test]
fn single_row_scenario_distance_and_shading() {
    // Grid: one row, wall - empty - wall; player at the empty cell's
    // center facing the right wall at distance 0.5 cells; render
    // distance 20 cells.
    let g = Grid::new(3, 1, vec![35, 46, 35], 1, 0);
    let px = 3 * ONE / 2;
    let py = ONE / 2;
    let rd = 20 * ONE;
    let hit = cast_ray(&g, px, py, ONE, 0, rd);
    match hit {
        RayHit::Hit { dist, cell_x, cell_y, tex } => {
            assert_eq!(dist, ONE / 2, "expected hit distance 0.5 cells exactly");
            assert_eq!((cell_x, cell_y), (2, 0));
            // The ray strikes the wall face at its vertical middle.
            assert_eq!(tex, ONE / 2);
            let (_, _, shade) = project_column(dist, 720, rd);
            // 1 - 0.5 / 20 = 0.975; in Q16: 65536 - 32768 * 65536 / 1310720.
            assert_eq!(shade, 63898);
        }
        RayHit::Miss => panic!("the right wall must be hit"),
    }
}

#[test]
fn ray_beyond_render_distance_misses() {
    // Open to the left: the ray leaves the grid and runs out of range.
    let g = Grid::new(3, 1, vec![46, 46, 35], 0, 0);
    let hit = cast_ray(&g, ONE / 2, ONE / 2, -ONE, 0, 5 * ONE);
    assert_eq!(hit, RayHit::Miss);
}

#[test]
fn projection_formula_exact() {
    // dist = 2 cells, screen 720: ceiling = 720 * ONE / 2 - 720 * ONE / 2.
    let (ceil, floor, shade) = project_column(2 * ONE, 720, 20 * ONE);
    assert_eq!(ceil, 720 * ONE / 2 - 720 * ONE / 2);
    assert_eq!(floor, 720 * ONE - ceil);
    // 1 - 2/20 = 0.9; in Q16: 65536 - 6553 (truncated) = 58983.
    assert_eq!(shade, 65536 - 6553);
}

#[test]
fn render_column_emits_one_segment_per_texture_row() {
    let tex = Texture::new(8, 4);
    let segs = render_column(&tex, ONE / 2, 0, 4 * ONE, ONE);
    assert_eq!(segs.len(), 4);
    // Rows split the span evenly: each segment covers one quarter.
    assert_eq!(segs[0].y0, 0);
    assert_eq!(segs[0].y1, ONE);
    assert_eq!(segs[3].y0, 3 * ONE);
    assert_eq!(segs[3].y1, 4 * ONE);
    // A fresh texture is white; full shade keeps the channels.
    assert_eq!((segs[0].r, segs[0].g, segs[0].b, segs[0].a), (255, 255, 255, 255));
}

#[test]
fn render_column_shades_colors() {
    let tex = Texture::new(8, 4);
    let segs = render_column(&tex, ONE / 2, 0, 4 * ONE, ONE / 2);
    // White at half shade: every channel halves (255 * 32768 / 65536 = 127).
    assert_eq!((segs[0].r, segs[0].g, segs[0].b, segs[0].a), (127, 127, 127, 127));
}

#[test]
fn sample_color_rejects_out_of_range() {
    let tex = Texture::new(8, 4);
    assert_eq!(tex.sample_color(-1, 0), Color::black());
    assert_eq!(tex.sample_color(0, ONE), Color::black());
    assert_eq!(tex.sample_color(0, 0), Color::white());
}

#[test]
fn sample_color_picks_the_addressed_texel() {
    let mut tex = Texture::new(4, 4);
    tex.set_color(2, 1, Color { r: 10, g: 20, b: 30, a: 40 });
    // u in [0.5, 0.75) maps to column 2; v in [0.25, 0.5) maps to row 1.
    let c = tex.sample_color(ONE / 2, ONE / 4);
    assert_eq!(c, Color { r: 10, g: 20, b: 30, a: 40 });
    let w = tex.sample_color_weighted(ONE / 2, ONE / 4, ONE / 2);
    assert_eq!(w, Color { r: 5, g: 10, b: 15, a: 20 });
}

#[test]
fn render_frame_draws_hits_and_skips_misses() {
    // Open to the left, walled to the right: the left-facing column is
    // background, the right-facing column carries one segment per
    // texture row.
    let g = Grid::new(3, 1, vec![46, 46, 35], 0, 0);
    let tex = Texture::new(8, 4);
    let dirs = vec![(-ONE, 0i64), (ONE, 0i64)];
    let cols = render_frame(&g, &tex, ONE / 2, ONE / 2, &dirs, 5 * ONE, 180);
    assert_eq!(cols.len(), 2);
    assert!(cols[0].is_empty(), "a miss renders as background");
    assert_eq!(cols[1].len(), 4, "a hit renders one segment per texture row");
}
