//! Player movement with collision, the sprite projector, the level set and
//! the game-state machine.

use raycaster::fixed::{clamp_fx, fx_div, fx_mul, sat_add, FX_INF, FX_ONE};
use raycaster::framebuffer::{Color, Framebuffer};
use raycaster::levels::{levels, load_level, next_state, GameEvent, GameState};
use raycaster::maze::Maze;
use raycaster::player::{colision, process_events, InputState, Player, Vec2Fx};
use raycaster::render::{proj_plane, shade_color};
use raycaster::sprites::{
    draw_sprites, sort_by_dist, transparent_color, Enemy, SPRITE_SHADE_K_FX, SPRITE_SHADE_MIN_FX,
};
use raycaster::textures::{to_cpu_texture, PixelKind, TextureManager};
use raycaster::trig::{cos_fx, PI_FX};

fn ring_maze(side: usize) -> Maze {
    let mut rows: Vec<Vec<char>> = Vec::new();
    for y in 0..side {
        let mut row: Vec<char> = Vec::new();
        for x in 0..side {
            if x == 0 || y == 0 || x == side - 1 || y == side - 1 {
                row.push('+');
            } else {
                row.push(' ');
            }
        }
        rows.push(row);
    }
    Maze::from_rows(rows).unwrap()
}

fn no_input() -> InputState {
    InputState { forward: false, backward: false, strafe_right: false, strafe_left: false, mouse_dx: 0 }
}

#[test]
fn colision_checks_five_points() {
    let m = ring_maze(5);
    // Dead center of the open area: free.
    assert!(colision(&m, 64, 160 * FX_ONE, 160 * FX_ONE, 12 * FX_ONE));
    // Close to the west wall: the west probe reaches into it.
    assert!(!colision(&m, 64, 70 * FX_ONE, 160 * FX_ONE, 12 * FX_ONE));
    // Inside a wall cell: blocked outright.
    assert!(!colision(&m, 64, 32 * FX_ONE, 32 * FX_ONE, 12 * FX_ONE));
    // Negative coordinates are never walkable.
    assert!(!colision(&m, 64, -FX_ONE, 160 * FX_ONE, 0));
}

#[test]
fn forward_movement_applies_when_free() {
    let m = ring_maze(5);
    let mut p = Player { pos: Vec2Fx { x: 160 * FX_ONE, y: 160 * FX_ONE }, a: 0, fov: PI_FX / 3 };
    let input = InputState { forward: true, ..no_input() };
    process_events(&mut p, &input, FX_ONE, &m, 64);
    // One second straight ahead at 36 units/s, scaled by cos of the
    // (unchanged, normalized) heading.
    let expected_dx = fx_mul(cos_fx(0), fx_mul(36 * FX_ONE, FX_ONE));
    assert_eq!(p.pos.x, 160 * FX_ONE + expected_dx);
    assert_eq!(p.pos.y, 160 * FX_ONE);
    assert_eq!(p.a, 0);
}

#[test]
fn forward_movement_blocked_by_wall() {
    let m = ring_maze(5);
    // 3.5 cells: a 36-unit step east would cross into the border wall.
    let mut p = Player { pos: Vec2Fx { x: 224 * FX_ONE, y: 160 * FX_ONE }, a: 0, fov: PI_FX / 3 };
    let input = InputState { forward: true, ..no_input() };
    process_events(&mut p, &input, FX_ONE, &m, 64);
    assert_eq!(p.pos.x, 224 * FX_ONE);
    assert_eq!(p.pos.y, 160 * FX_ONE);
}

#[test]
fn mouse_turn_normalizes_heading() {
    let m = ring_maze(5);
    let mut p = Player { pos: Vec2Fx { x: 160 * FX_ONE, y: 160 * FX_ONE }, a: PI_FX, fov: PI_FX / 3 };
    let input = InputState { mouse_dx: 100, ..no_input() };
    process_events(&mut p, &input, FX_ONE, &m, 64);
    // 100 counts at 164 fixed radians each pushes past pi and wraps.
    assert_eq!(p.a, PI_FX + 100 * 164 - 2 * PI_FX);
    assert!(p.a > -PI_FX && p.a <= PI_FX);
}

#[test]
fn sprites_sort_farthest_first() {
    let p = Player { pos: Vec2Fx { x: 0, y: 0 }, a: 0, fov: PI_FX / 3 };
    let mut enemies = vec![
        Enemy::new(10 * FX_ONE, 0, 'a'),
        Enemy::new(100 * FX_ONE, 0, 'b'),
        Enemy::new(50 * FX_ONE, 0, 'c'),
    ];
    sort_by_dist(&p, &mut enemies);
    assert_eq!(enemies.len(), 3);
    assert_eq!(enemies[0].id, 'b');
    assert_eq!(enemies[1].id, 'c');
    assert_eq!(enemies[2].id, 'a');
}

fn solid_texture(r: u8, g: u8, b: u8) -> raycaster::textures::CpuTexture {
    let mut data: Vec<u8> = Vec::new();
    for _ in 0..(8 * 8) {
        data.extend_from_slice(&[r, g, b, 255]);
    }
    to_cpu_texture(PixelKind::Rgba8, 8, 8, &data).unwrap()
}

fn transparent_texture() -> raycaster::textures::CpuTexture {
    let t = transparent_color();
    let mut data: Vec<u8> = Vec::new();
    for _ in 0..(8 * 8) {
        data.extend_from_slice(&[t.r, t.g, t.b, t.a]);
    }
    to_cpu_texture(PixelKind::Rgba8, 8, 8, &data).unwrap()
}

fn snapshot(fb: &Framebuffer) -> Vec<Color> {
    let mut v: Vec<Color> = Vec::new();
    for y in 0..fb.height {
        for x in 0..fb.width {
            v.push(fb.pixel_at(x, y));
        }
    }
    v
}

#[test]
fn sprite_behind_wall_is_fully_culled() {
    // Wall depth smaller than the sprite's corrected distance everywhere:
    // no pixel of the frame changes.
    let mut fb = Framebuffer::new(64, 48);
    let mut tm = TextureManager::new();
    tm.insert('e', solid_texture(200, 100, 60));
    let player = Player { pos: Vec2Fx { x: 160 * FX_ONE, y: 160 * FX_ONE }, a: 0, fov: PI_FX / 3 };
    let mut enemies = vec![Enemy::new(160 * FX_ONE + 128 * FX_ONE, 160 * FX_ONE, 'e')];
    let depth: Vec<i64> = vec![10 * FX_ONE; 64];  // walls 10 units away, sprite at ~128
    let pp = proj_plane(64, PI_FX / 3);
    let before = snapshot(&fb);
    draw_sprites(&mut fb, &player, &mut enemies, &tm, &depth, pp, 64);
    assert_eq!(snapshot(&fb), before);
}

#[test]
fn visible_sprite_draws_attenuated_texels() {
    // No occluding wall anywhere: the sprite's texels appear, darkened by
    // the distance attenuation, centered on the heading column.
    let mut fb = Framebuffer::new(64, 48);
    let mut tm = TextureManager::new();
    tm.insert('e', solid_texture(200, 100, 60));
    let player = Player { pos: Vec2Fx { x: 160 * FX_ONE, y: 160 * FX_ONE }, a: 0, fov: PI_FX / 3 };
    let mut enemies = vec![Enemy::new(160 * FX_ONE + 128 * FX_ONE, 160 * FX_ONE, 'e')];
    let depth: Vec<i64> = vec![FX_INF; 64];
    let pp = proj_plane(64, PI_FX / 3);
    draw_sprites(&mut fb, &player, &mut enemies, &tm, &depth, pp, 64);

    // Expected shade from the corrected distance (the heading difference
    // is exactly zero here, so only the cosine rounding enters).
    let dist_corr = fx_mul(128 * FX_ONE, cos_fx(0));
    let shade = clamp_fx(
        fx_div(FX_ONE, sat_add(FX_ONE, fx_mul(dist_corr, SPRITE_SHADE_K_FX))),
        SPRITE_SHADE_MIN_FX,
        FX_ONE,
    );
    let mut expected = shade_color(Color::rgba(200, 100, 60, 255), shade);
    expected.a = 255;
    // The screen-center pixel just below the horizon lies inside the
    // sprite's rectangle.
    assert_eq!(fb.pixel_at(32, 25), expected);
    // Pixels far outside the rectangle stay black.
    assert_eq!(fb.pixel_at(2, 2), Color::black());
}

#[test]
fn transparent_texels_are_skipped() {
    let mut fb = Framebuffer::new(64, 48);
    let mut tm = TextureManager::new();
    tm.insert('e', transparent_texture());
    let player = Player { pos: Vec2Fx { x: 160 * FX_ONE, y: 160 * FX_ONE }, a: 0, fov: PI_FX / 3 };
    let mut enemies = vec![Enemy::new(160 * FX_ONE + 128 * FX_ONE, 160 * FX_ONE, 'e')];
    let depth: Vec<i64> = vec![FX_INF; 64];
    let pp = proj_plane(64, PI_FX / 3);
    let before = snapshot(&fb);
    draw_sprites(&mut fb, &player, &mut enemies, &tm, &depth, pp, 64);
    assert_eq!(snapshot(&fb), before);
}

#[test]
fn sprite_projector_is_idempotent() {
    // Running the projector twice on the same frame state draws the same
    // columns with the same colors: the frame does not change again, and
    // the depth buffer was never written (it is read-only here).
    let mut fb = Framebuffer::new(64, 48);
    let mut tm = TextureManager::new();
    tm.insert('e', solid_texture(200, 100, 60));
    tm.insert('k', solid_texture(10, 220, 30));
    let player = Player { pos: Vec2Fx { x: 160 * FX_ONE, y: 160 * FX_ONE }, a: 0, fov: PI_FX / 3 };
    let mut enemies = vec![
        Enemy::new(160 * FX_ONE + 128 * FX_ONE, 160 * FX_ONE, 'e'),
        Enemy::new(160 * FX_ONE + 64 * FX_ONE, 150 * FX_ONE, 'k'),
    ];
    let mut depth: Vec<i64> = vec![FX_INF; 64];
    for x in 0..20 {
        depth[x] = 5 * FX_ONE;  // some occluding walls on the left
    }
    let pp = proj_plane(64, PI_FX / 3);
    draw_sprites(&mut fb, &player, &mut enemies, &tm, &depth, pp, 64);
    let after_first = snapshot(&fb);
    draw_sprites(&mut fb, &player, &mut enemies, &tm, &depth, pp, 64);
    assert_eq!(snapshot(&fb), after_first);
}

#[test]
fn sprite_outside_fov_is_culled() {
    let mut fb = Framebuffer::new(64, 48);
    let mut tm = TextureManager::new();
    tm.insert('e', solid_texture(200, 100, 60));
    // Sprite directly behind the camera.
    let player = Player { pos: Vec2Fx { x: 160 * FX_ONE, y: 160 * FX_ONE }, a: 0, fov: PI_FX / 3 };
    let mut enemies = vec![Enemy::new(160 * FX_ONE - 128 * FX_ONE, 160 * FX_ONE, 'e')];
    let depth: Vec<i64> = vec![FX_INF; 64];
    let pp = proj_plane(64, PI_FX / 3);
    let before = snapshot(&fb);
    draw_sprites(&mut fb, &player, &mut enemies, &tm, &depth, pp, 64);
    assert_eq!(snapshot(&fb), before);
}

#[test]
fn level_set_and_loading() {
    let defs = levels();
    assert_eq!(defs.len(), 3);
    assert_eq!(defs[0].name, "Nivel 1");
    assert_eq!(defs[0].player_start, (13 * FX_ONE, 2 * FX_ONE, 0));
    assert_eq!(defs[0].enemies.len(), 4);

    let rows = vec![vec![' ', ' '], vec![' ', ' ']];
    let (maze, enemies, start) = load_level(&defs[0], rows, 64).unwrap();
    assert_eq!(maze.height(), 2);
    assert_eq!(start, (13 * FX_ONE, 2 * FX_ONE, 0));
    assert_eq!(enemies.len(), 4);
    // Entity positions scale from cell units to world units.
    assert_eq!(enemies[0].pos.x, 14 * FX_ONE * 64);
    assert_eq!(enemies[0].pos.y, 4 * FX_ONE * 64);
    assert_eq!(enemies[0].id, 'e');
    assert_eq!(enemies[0].scale, FX_ONE);

    let ragged = vec![vec![' ', ' '], vec![' ']];
    assert!(load_level(&defs[0], ragged, 64).is_none());
}

#[test]
fn game_state_machine_transitions() {
    assert_eq!(next_state(GameState::Start, GameEvent::Confirm), GameState::Playing);
    assert_eq!(next_state(GameState::Start, GameEvent::Menu), GameState::Start);
    assert_eq!(next_state(GameState::Start, GameEvent::Caught), GameState::Start);
    assert_eq!(next_state(GameState::Playing, GameEvent::Caught), GameState::GameOver);
    assert_eq!(next_state(GameState::Playing, GameEvent::GoalReached), GameState::Win);
    assert_eq!(next_state(GameState::Playing, GameEvent::Confirm), GameState::Playing);
    assert_eq!(next_state(GameState::GameOver, GameEvent::Confirm), GameState::Start);
    assert_eq!(next_state(GameState::GameOver, GameEvent::Menu), GameState::Start);
    assert_eq!(next_state(GameState::Win, GameEvent::Confirm), GameState::Playing);
    assert_eq!(next_state(GameState::Win, GameEvent::Menu), GameState::Start);
    assert_eq!(next_state(GameState::Win, GameEvent::Caught), GameState::Win);
}
