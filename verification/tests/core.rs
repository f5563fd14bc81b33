//! Fixed-point arithmetic, trigonometry, grid and DDA caster behavior.

use raycaster::caster::{cast_ray, cast_ray_dir, DDA_MAX_STEPS, POS_LIMIT};
use raycaster::framebuffer::{Color, Framebuffer};
use raycaster::player::{Player, Vec2Fx};
use raycaster::fixed::{
    clamp_fx, euclid_mod, floor_div, fx_div, fx_mul, isqrt64, muldiv_sat, sat_add, sqrt_fx,
    FX_HALF, FX_INF, FX_ONE,
};
use raycaster::maze::Maze;
use raycaster::trig::{atan2_fx, cos_fx, norm_angle, sin_fx, PI_FX, PI_HALF_FX, TWO_PI_FX};

fn ring_maze(side: usize) -> Maze {
    let mut rows: Vec<Vec<char>> = Vec::new();
    for y in 0..side {
        let mut row: Vec<char> = Vec::new();
        for x in 0..side {
            if x == 0 || y == 0 || x == side - 1 || y == side - 1 {
                row.push('+');
            } else {
                row.push(' ');
            }
        }
        rows.push(row);
    }
    Maze::from_rows(rows).unwrap()
}

fn corridor_maze() -> Maze {
    // Walls in columns 0 and 6, open in between, five rows tall.
    let mut rows: Vec<Vec<char>> = Vec::new();
    for _ in 0..5 {
        let mut row: Vec<char> = Vec::new();
        row.push('+');
        for _ in 1..6 {
            row.push(' ');
        }
        row.push('|');
        rows.push(row);
    }
    Maze::from_rows(rows).unwrap()
}

#[test]
fn fx_mul_exact_values() {
    assert_eq!(fx_mul(3 * FX_ONE, 2 * FX_ONE), 6 * FX_ONE);
    assert_eq!(fx_mul(-3 * FX_ONE, 2 * FX_ONE), -6 * FX_ONE);
    assert_eq!(fx_mul(3 * FX_ONE, -2 * FX_ONE), -6 * FX_ONE);
    assert_eq!(fx_mul(-3 * FX_ONE, -2 * FX_ONE), 6 * FX_ONE);
    assert_eq!(fx_mul(FX_HALF, FX_HALF), FX_ONE / 4);
    assert_eq!(fx_mul(FX_INF, FX_INF), FX_INF);
}

#[test]
fn fx_div_exact_values() {
    assert_eq!(fx_div(FX_ONE, 2 * FX_ONE), FX_HALF);
    assert_eq!(fx_div(-FX_ONE, 2 * FX_ONE), -FX_HALF);
    assert_eq!(fx_div(6 * FX_ONE, 3 * FX_ONE), 2 * FX_ONE);
    // Dividing one by the smallest positive value scales up fully.
    assert_eq!(fx_div(FX_ONE, 1), FX_ONE * FX_ONE);
    assert_eq!(fx_div(FX_INF, 1), FX_INF);
}

#[test]
fn sat_add_caps_at_infinity() {
    assert_eq!(sat_add(1, 2), 3);
    assert_eq!(sat_add(FX_INF, 1), FX_INF);
    assert_eq!(sat_add(FX_INF, FX_INF), FX_INF);
}

#[test]
fn floor_division_and_remainder() {
    assert_eq!(floor_div(7, 2), 3);
    assert_eq!(floor_div(-5, 2), -3);
    assert_eq!(floor_div(-4, 2), -2);
    assert_eq!(euclid_mod(-5, 4), 3);
    assert_eq!(euclid_mod(5, 4), 1);
    assert_eq!(euclid_mod(-4, 4), 0);
}

#[test]
fn integer_square_roots() {
    assert_eq!(isqrt64(0), 0);
    assert_eq!(isqrt64(17), 4);
    assert_eq!(isqrt64(16), 4);
    assert_eq!(isqrt64(u64::MAX), 0xFFFF_FFFF);
    assert_eq!(sqrt_fx(4 * FX_ONE), 2 * FX_ONE);
    assert_eq!(sqrt_fx(FX_ONE), FX_ONE);
    assert_eq!(sqrt_fx(0), 0);
}

#[test]
fn muldiv_saturates() {
    assert_eq!(muldiv_sat(6, 7, 2), 21);
    assert_eq!(muldiv_sat(FX_INF, FX_INF, 1), FX_INF);
}

#[test]
fn clamp_behaviour() {
    assert_eq!(clamp_fx(5, 0, 10), 5);
    assert_eq!(clamp_fx(-5, 0, 10), 0);
    assert_eq!(clamp_fx(15, 0, 10), 10);
}

#[test]
fn sine_zeros_and_symmetry() {
    assert_eq!(sin_fx(0), 0);
    assert_eq!(sin_fx(PI_FX), 0);
    assert_eq!(sin_fx(-PI_FX), 0);
    for a in [1234i64, 40000, 100000, 200000] {
        assert_eq!(sin_fx(-a), -sin_fx(a));
        assert!(sin_fx(a) >= 0);
        assert!(sin_fx(a) <= FX_ONE);
    }
    // sin(pi/6) is 0.5 up to one rounding step.
    assert!((sin_fx(PI_FX / 6) - FX_HALF).abs() <= 1);
}

#[test]
fn cosine_range_and_axis_values() {
    // cos 0 comes out one fixed-point step below 1.
    assert!(cos_fx(0) >= FX_ONE - 2);
    assert!(cos_fx(PI_FX).abs() <= FX_ONE && cos_fx(PI_FX) <= -(FX_ONE - 16));
    assert!(cos_fx(PI_HALF_FX).abs() < 64);
}

#[test]
fn angle_normalization() {
    assert_eq!(norm_angle(0), 0);
    assert_eq!(norm_angle(TWO_PI_FX), 0);
    assert_eq!(norm_angle(-TWO_PI_FX), 0);
    assert_eq!(norm_angle(PI_FX), PI_FX);
    assert_eq!(norm_angle(PI_FX + 1), PI_FX + 1 - TWO_PI_FX);
    let r = norm_angle(3 * PI_FX + 77);
    assert!(-PI_FX < r && r <= PI_FX);
    assert_eq!((3 * PI_FX + 77 - r) % TWO_PI_FX, 0);
}

#[test]
fn atan2_axis_directions() {
    assert_eq!(atan2_fx(0, FX_ONE), 0);
    assert_eq!(atan2_fx(0, -FX_ONE), PI_FX);
    assert_eq!(atan2_fx(FX_ONE, 0), PI_HALF_FX);
    assert_eq!(atan2_fx(-FX_ONE, 0), -PI_HALF_FX);
    assert_eq!(atan2_fx(0, 0), 0);
    // 45 degrees: the linear-plus-correction form at ratio 1 gives pi/4.
    let d = atan2_fx(FX_ONE, FX_ONE);
    assert!((d - PI_FX / 4).abs() < 300);
}

#[test]
fn maze_rectangular_accepted_ragged_rejected() {
    let rows = vec![vec![' ', '+'], vec!['+', ' ']];
    let m = Maze::from_rows(rows).unwrap();
    assert_eq!(m.width(), 2);
    assert_eq!(m.height(), 2);
    assert_eq!(m.at(1, 0), '+');
    assert_eq!(m.at(0, 0), ' ');

    let ragged = vec![vec![' ', '+'], vec!['+']];
    assert!(Maze::from_rows(ragged).is_none());

    let empty: Vec<Vec<char>> = Vec::new();
    let e = Maze::from_rows(empty).unwrap();
    assert_eq!(e.height(), 0);
    assert_eq!(e.width(), 0);
}

#[test]
fn cast_empty_grid_reports_no_hit() {
    // An empty grid yields "no hit" for every direction.
    let rows: Vec<Vec<char>> = Vec::new();
    let m = Maze::from_rows(rows).unwrap();
    for (dx, dy) in [
        (FX_ONE, 0),
        (0, FX_ONE),
        (-FX_ONE, 0),
        (0, -FX_ONE),
        (FX_HALF, FX_HALF),
        (0, 0),
    ] {
        let r = cast_ray_dir(&m, 160 * FX_ONE, 160 * FX_ONE, dx, dy, 64);
        assert_eq!(r.impact, ' ');
        assert_eq!(r.distance, 0);
    }
}

#[test]
fn cast_centered_ring_hits_each_border() {
    // 5x5 ring, camera dead center, axis-aligned rays: the border is 1.5
    // cells away, so the perpendicular distance is exactly 1.5 * 64 world
    // units in every axis direction.
    let m = ring_maze(5);
    let block = 64usize;
    let pos = 160 * FX_ONE;  // 2.5 cells of 64 world units
    let expected = 96 * FX_ONE;  // 1.5 cells * 64

    let east = cast_ray_dir(&m, pos, pos, FX_ONE, 0, block);
    assert_eq!(east.impact, '+');
    assert_eq!(east.side, 0);
    assert_eq!(east.distance, expected);
    assert_eq!(east.wall_x, FX_HALF);

    let west = cast_ray_dir(&m, pos, pos, -FX_ONE, 0, block);
    assert_eq!(west.impact, '+');
    assert_eq!(west.side, 0);
    assert_eq!(west.distance, expected);

    let south = cast_ray_dir(&m, pos, pos, 0, FX_ONE, block);
    assert_eq!(south.impact, '+');
    assert_eq!(south.side, 1);
    assert_eq!(south.distance, expected);

    let north = cast_ray_dir(&m, pos, pos, 0, -FX_ONE, block);
    assert_eq!(north.impact, '+');
    assert_eq!(north.side, 1);
    assert_eq!(north.distance, expected);
}

#[test]
fn cast_corridor_distance_independent_of_y() {
    // Camera heading exactly along +x in an open corridor with walls at
    // known x offsets: the perpendicular distance equals the analytic
    // corridor length whatever the y position.
    let m = corridor_maze();
    let block = 64usize;
    let pos_x = 208 * FX_ONE;  // 3.25 cells
    let expected_east = 176 * FX_ONE;  // (6 - 3.25) cells * 64
    let expected_west = 144 * FX_ONE;  // (3.25 - 1) cells * 64

    for y_cells_times4 in [6i64, 10, 14] {
        let pos_y = y_cells_times4 * 16 * FX_ONE;
        let east = cast_ray_dir(&m, pos_x, pos_y, FX_ONE, 0, block);
        assert_eq!(east.impact, '|');
        assert_eq!(east.side, 0);
        assert_eq!(east.distance, expected_east);

        let west = cast_ray_dir(&m, pos_x, pos_y, -FX_ONE, 0, block);
        assert_eq!(west.impact, '+');
        assert_eq!(west.side, 0);
        assert_eq!(west.distance, expected_west);
    }
}

#[test]
fn cast_axis_ray_never_steps_zero_axis() {
    // A zero direction component means that axis is never the stepping
    // axis: the reported face always belongs to the moving axis.
    let m = ring_maze(9);
    let block = 64usize;
    for y_cells in 1..8i64 {
        let pos_y = y_cells * 64 * FX_ONE + 32 * FX_ONE;
        let r = cast_ray_dir(&m, 160 * FX_ONE, pos_y, FX_ONE, 0, block);
        assert_eq!(r.side, 0);
        let r2 = cast_ray_dir(&m, 160 * FX_ONE, pos_y, -FX_ONE, 0, block);
        assert_eq!(r2.side, 0);
    }
    for x_cells in 1..8i64 {
        let pos_x = x_cells * 64 * FX_ONE + 32 * FX_ONE;
        let r = cast_ray_dir(&m, pos_x, 160 * FX_ONE, 0, FX_ONE, block);
        assert_eq!(r.side, 1);
    }
}

#[test]
fn cast_diagonal_hit_is_well_formed() {
    // For all hits: side is 0 or 1, the distance is finite and positive,
    // and wall_x lies in [0, FX_ONE).
    let m = ring_maze(5);
    let block = 64usize;
    let pos = 160 * FX_ONE;
    for (dx, dy) in [
        (46341i64, 46341i64),
        (-46341, 46341),
        (46341, -46341),
        (-30000, -50000),
        (60000, 20000),
    ] {
        let r = cast_ray_dir(&m, pos, pos, dx, dy, block);
        assert_eq!(r.impact, '+');
        assert!(r.side == 0 || r.side == 1);
        assert!(r.distance > 0 && r.distance <= FX_INF);
        assert!(r.wall_x >= 0 && r.wall_x < FX_ONE);
    }
}

#[test]
fn cast_ray_by_angle_matches_axis_cast() {
    // Heading 0 in the ring: the trigonometric direction differs from the
    // exact axis vector by at most one fixed-point step, so the distance is
    // within a small tolerance of 1.5 cells * 64 units.
    let m = ring_maze(5);
    let mut fb = Framebuffer::new(16, 16);
    let player = Player {
        pos: Vec2Fx { x: 160 * FX_ONE, y: 160 * FX_ONE },
        a: 0,
        fov: PI_FX / 3,
    };
    let r = cast_ray(&mut fb, &m, &player, 0, 64, false);
    assert_eq!(r.impact, '+');
    assert_eq!(r.side, 0);
    assert!((r.distance - 96 * FX_ONE).abs() <= 256);
    // The plain cast never draws.
    for y in 0..16 {
        for x in 0..16 {
            assert_eq!(fb.pixel_at(x, y), Color::black());
        }
    }
}

#[test]
fn cast_ray_debug_marches_and_draws() {
    // The debug march steps one world unit at a time: from 2.5 cells the
    // east border cell starts 96 units away, and the path is drawn.
    let m = ring_maze(5);
    let mut fb = Framebuffer::new(320, 200);
    let player = Player {
        pos: Vec2Fx { x: 160 * FX_ONE, y: 160 * FX_ONE },
        a: 0,
        fov: PI_FX / 3,
    };
    let r = cast_ray(&mut fb, &m, &player, 0, 64, true);
    assert_eq!(r.impact, '+');
    // One-unit march quantization plus the cosine rounding step.
    assert!((r.distance - 96 * FX_ONE).abs() <= 2 * FX_ONE);
    assert_eq!(r.side, 0);
    // A pixel on the marched path carries the debug color.
    assert_eq!(fb.pixel_at(200, 160), Color::rgba(245, 245, 245, 255));
    // A pixel off the path stays black.
    assert_eq!(fb.pixel_at(200, 100), Color::black());
}

#[test]
fn cast_step_budget_is_exposed() {
    assert_eq!(DDA_MAX_STEPS, 10000);
    assert!(POS_LIMIT > 0);
}
