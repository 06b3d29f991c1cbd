use wavecast::channel::{channel_pair, try_send, SendStatus};
use wavecast::commands::FromAudio;
use wavecast::fixed::{scale_dir, ONE};
use wavecast::grid::Grid;
use wavecast::history::{drain_visuals, SampleHistory};
use wavecast::player::{resolve_move, Direction, InputState, Player};
use wavecast::render::render_waveform;
use wavecast::texture::{Color, Texture};

#[test]
fn history_evicts_oldest_at_capacity() {
    // Pushing N + 1 samples into a capacity-N history leaves exactly the
    // last N, oldest evicted first.
    let mut h = SampleHistory::new(3);
    h.push(1);
    h.push(2);
    h.push(3);
    h.push(4);
    assert_eq!(h.len(), 3);
    assert_eq!((h.get(0), h.get(1), h.get(2)), (2, 3, 4));
}

#[test]
fn history_below_capacity_keeps_everything() {
    let mut h = SampleHistory::new(4);
    h.push(7);
    h.push(8);
    assert_eq!(h.len(), 2);
    assert_eq!((h.get(0), h.get(1)), (7, 8));
}

#[test]
fn drain_visuals_caps_per_frame_work() {
    let (tx, rx) = channel_pair::<FromAudio>(16);
    for v in [10, 20, 30, 40, 50] {
        assert_eq!(try_send(&tx, FromAudio::Data(v)), SendStatus::Accepted);
    }
    let mut h = SampleHistory::new(8);
    let got = drain_visuals(&rx, &mut h, 3);
    assert_eq!(got, 3, "the per-frame cap bounds the drain");
    assert_eq!((h.get(0), h.get(1), h.get(2)), (10, 20, 30));
    let got = drain_visuals(&rx, &mut h, 8);
    assert_eq!(got, 2, "the rest arrives next frame");
    assert_eq!(h.len(), 5);
}

#[test]
fn waveform_paints_sample_rows() {
    let mut tex = Texture::new(4, 4);
    let mut h = SampleHistory::new(4);
    h.push(0); // mid: row (0 + ONE) * 2 / ONE = 2
    h.push(-(ONE as i32)); // bottom of the range: row 0
    h.push(ONE as i32); // top of the range: row 4 clamped to 3
    render_waveform(&mut tex, &h);
    assert_eq!(tex.get_color(0, 2), Color::black());
    assert_eq!(tex.get_color(1, 0), Color::black());
    assert_eq!(tex.get_color(2, 3), Color::black());
    assert_eq!(tex.get_color(0, 0), Color::white());
    assert_eq!(tex.get_color(3, 3), Color::white());
}

#[test]
fn waveform_clamps_out_of_range_samples() {
    let mut tex = Texture::new(2, 4);
    let mut h = SampleHistory::new(2);
    h.push(3 * ONE as i32); // louder than normalized: clamped to the top row
    h.push(-3 * ONE as i32); // clamped to the bottom row
    render_waveform(&mut tex, &h);
    assert_eq!(tex.get_color(0, 3), Color::black());
    assert_eq!(tex.get_color(1, 0), Color::black());
}

#[test]
fn texture_clear_resets_to_background() {
    let mut tex = Texture::new(3, 3);
    tex.set_color(1, 1, Color::black());
    assert_eq!(tex.get_color(1, 1), Color::black());
    tex.clear();
    assert_eq!(tex.get_color(1, 1), Color::white());
    assert_eq!((tex.width(), tex.height()), (3, 3));
}

#[test]
fn input_state_starts_idle() {
    let s = InputState::new();
    assert_eq!(s.destruct(), (0, 0, 0));
}

#[test]
fn player_steps_along_heading() {
    let mut p = Player::new(2 * ONE, 3 * ONE);
    // Facing +x (cos ONE, sin 0) for a full second at speed 2: two cells.
    p.step(Direction::Forward, ONE, ONE, 0);
    assert_eq!((p.pos_x, p.pos_y), (4 * ONE, 3 * ONE));
    p.step(Direction::Back, ONE / 2, ONE, 0);
    assert_eq!((p.pos_x, p.pos_y), (3 * ONE, 3 * ONE));
    // Strafing left moves perpendicular to the heading.
    p.step(Direction::Left, ONE / 2, ONE, 0);
    assert_eq!((p.pos_x, p.pos_y), (3 * ONE, 2 * ONE));
}

#[test]
fn player_rotation_rate() {
    let mut p = Player::new(0, 0);
    // speed 2, dt 1: delta = 2 * ONE * 3 / 4 = 1.5 in Q16.
    p.rotate(Direction::Right, ONE);
    assert_eq!(p.angle, 3 * ONE / 2);
    p.rotate(Direction::Left, ONE);
    assert_eq!(p.angle, 0);
    p.rotate(Direction::Forward, ONE);
    assert_eq!(p.angle, 0, "only left and right turn");
}

#[test]
fn handle_input_follows_controller_signs() {
    let mut p = Player::new(4 * ONE, 4 * ONE);
    p.controller.y = 1;
    p.controller.a = 1;
    p.handle_input(ONE / 2, ONE, 0);
    assert_eq!((p.pos_x, p.pos_y), (5 * ONE, 4 * ONE));
    assert_eq!(p.angle, 3 * ONE / 4);
}

#[test]
fn column_angle_spans_the_field_of_view() {
    let p = Player::new(0, 0);
    let left = p.column_angle(0, 640);
    let mid = p.column_angle(320, 640);
    let right = p.column_angle(640, 640);
    assert_eq!(left, -(p.fov / 2));
    assert_eq!(mid, 0);
    assert_eq!(right, p.fov - p.fov / 2);
}

#[test]
fn move_into_wall_rolls_back() {
    let mut g = Grid::new(3, 1, vec![35, 46, 35], 1, 0);
    let old = (3 * ONE / 2, ONE / 2);
    let into_wall = (5 * ONE / 2, ONE / 2);
    let pos = resolve_move(&mut g, old.0, old.1, into_wall.0, into_wall.1);
    assert_eq!(pos, old, "a wall cell rolls the move back");
}

#[test]
fn move_out_of_bounds_rolls_back() {
    let mut g = Grid::new(2, 2, vec![46, 46, 46, 46], 0, 0);
    let old = (ONE / 2, ONE / 2);
    let pos = resolve_move(&mut g, old.0, old.1, -ONE / 2, ONE / 2);
    assert_eq!(pos, old, "leaving the grid rolls the move back");
}

#[test]
fn move_into_open_cell_is_accepted() {
    let mut g = Grid::new(2, 2, vec![46, 46, 46, 46], 0, 0);
    let pos = resolve_move(&mut g, ONE / 2, ONE / 2, 3 * ONE / 2, ONE / 2);
    assert_eq!(pos, (3 * ONE / 2, ONE / 2));
    // The marker travelled with the player: the vacated cell is walkable
    // again and a move back succeeds.
    let back = resolve_move(&mut g, pos.0, pos.1, ONE / 2, ONE / 2);
    assert_eq!(back, (ONE / 2, ONE / 2));
}

#[test]
fn move_within_the_same_cell_keeps_the_marker() {
    let mut g = Grid::new(2, 1, vec![46, 35], 0, 0);
    let pos = resolve_move(&mut g, ONE / 4, ONE / 2, ONE / 2, ONE / 2);
    assert_eq!(pos, (ONE / 2, ONE / 2));
}

#[test]
fn is_wall_only_inside_the_grid() {
    let g = Grid::new(2, 1, vec![46, 35], 0, 0);
    assert!(g.is_wall(1, 0));
    assert!(!g.is_wall(0, 0));
    assert!(!g.is_wall(-1, 0), "outside the grid nothing is a wall");
    assert!(!g.is_wall(0, 5));
}

#[test]
fn scale_dir_keeps_sign_and_magnitude() {
    assert_eq!(scale_dir(ONE, 100), 100);
    assert_eq!(scale_dir(-ONE, 100), -100);
    assert_eq!(scale_dir(ONE / 2, 100), 50);
    assert_eq!(scale_dir(-(ONE / 2), 100), -50);
    assert_eq!(scale_dir(0, 100), 0);
}
