//! Frame buffer writes, texture sampling and import, and the scene
//! rasterizer's depth buffer.

use raycaster::fixed::{FX_HALF, FX_INF, FX_ONE};
use raycaster::framebuffer::{Color, Framebuffer};
use raycaster::maze::Maze;
use raycaster::player::{Player, Vec2Fx};
use raycaster::render::{
    ang_factor, cell_to_color, draw_cell, flashlight, proj_plane, render_world, row_shade,
    shade_color, wall_base, AMBIENT_FX, ROW_SHADE_MIN_FX, WALL_BASE_MIN_FX,
};
use raycaster::textures::{bpp, to_cpu_texture, CpuTexture, PixelKind, TextureManager};
use raycaster::trig::PI_FX;

fn ring_maze(side: usize) -> Maze {
    let mut rows: Vec<Vec<char>> = Vec::new();
    for y in 0..side {
        let mut row: Vec<char> = Vec::new();
        for x in 0..side {
            if x == 0 || y == 0 || x == side - 1 || y == side - 1 {
                row.push('+');
            } else {
                row.push(' ');
            }
        }
        rows.push(row);
    }
    Maze::from_rows(rows).unwrap()
}

#[test]
fn framebuffer_starts_black_and_clears_to_background() {
    let mut fb = Framebuffer::new(4, 3);
    for y in 0..3 {
        for x in 0..4 {
            assert_eq!(fb.pixel_at(x, y), Color::black());
        }
    }
    let navy = Color::rgba(50, 50, 100, 255);
    fb.set_background_color(navy);
    fb.clear();
    for y in 0..3 {
        for x in 0..4 {
            assert_eq!(fb.pixel_at(x, y), navy);
        }
    }
}

#[test]
fn framebuffer_writes_exactly_one_pixel() {
    let mut fb = Framebuffer::new(4, 4);
    let red = Color::rgba(255, 0, 0, 255);
    fb.set_pixel_color(2, 1, red);
    for y in 0..4 {
        for x in 0..4 {
            if (x, y) == (2, 1) {
                assert_eq!(fb.pixel_at(x, y), red);
            } else {
                assert_eq!(fb.pixel_at(x, y), Color::black());
            }
        }
    }
}

#[test]
fn framebuffer_drops_out_of_range_writes() {
    // An out-of-range pixel write is silently dropped, never an error.
    let mut fb = Framebuffer::new(4, 4);
    let red = Color::rgba(255, 0, 0, 255);
    fb.set_pixel_color(10, 0, red);
    fb.set_pixel_color(0, 99, red);
    fb.set_current_color(red);
    fb.set_pixel(4, 4);
    for y in 0..4 {
        for x in 0..4 {
            assert_eq!(fb.pixel_at(x, y), Color::black());
        }
    }
}

#[test]
fn importer_normalizes_each_layout() {
    let rgba = vec![1u8, 2, 3, 4, 5, 6, 7, 8];
    let t = to_cpu_texture(PixelKind::Rgba8, 2, 1, &rgba).unwrap();
    assert_eq!((t.w, t.h), (2, 1));
    assert_eq!(t.pixels, vec![1, 2, 3, 4, 5, 6, 7, 8]);

    let rgb = vec![9u8, 8, 7];
    let t = to_cpu_texture(PixelKind::Rgb8, 1, 1, &rgb).unwrap();
    assert_eq!(t.pixels, vec![9, 8, 7, 255]);

    let gray = vec![5u8];
    let t = to_cpu_texture(PixelKind::Gray8, 1, 1, &gray).unwrap();
    assert_eq!(t.pixels, vec![5, 5, 5, 255]);

    let ga = vec![7u8, 9];
    let t = to_cpu_texture(PixelKind::GrayAlpha8, 1, 1, &ga).unwrap();
    assert_eq!(t.pixels, vec![7, 7, 7, 9]);
}

#[test]
fn importer_rejects_bad_inputs() {
    // An unsupported layout or a mismatched byte count recovers by
    // returning nothing (the caller substitutes the placeholder).
    let data = vec![1u8, 2, 3, 4];
    assert!(to_cpu_texture(PixelKind::Unsupported, 1, 1, &data).is_none());
    assert!(to_cpu_texture(PixelKind::Rgb8, 1, 1, &data).is_none());
    assert!(to_cpu_texture(PixelKind::Rgba8, 0, 1, &data).is_none());
    assert_eq!(bpp(PixelKind::Rgba8), 4);
    assert_eq!(bpp(PixelKind::Rgb8), 3);
    assert_eq!(bpp(PixelKind::GrayAlpha8), 2);
    assert_eq!(bpp(PixelKind::Gray8), 1);
}

#[test]
fn placeholder_is_a_checkerboard() {
    let mut tm = TextureManager::new();
    tm.load_defaults();
    assert_eq!(tm.get_size('+'), (64, 64));
    // 8x8 blocks alternate between magenta and black, fully opaque.
    assert_eq!(tm.sample('+', 0, 0), Color::rgba(255, 0, 255, 255));
    assert_eq!(tm.sample('+', 8, 0), Color::rgba(0, 0, 0, 255));
    assert_eq!(tm.sample('+', 8, 8), Color::rgba(255, 0, 255, 255));
    assert_eq!(tm.sample('+', 63, 63), Color::rgba(255, 0, 255, 255));
}

#[test]
fn missing_texture_yields_sentinel() {
    let tm = TextureManager::new();
    assert_eq!(tm.get_size('z'), (1, 1));
    assert_eq!(tm.sample('z', 0, 0), Color::rgba(255, 0, 255, 255));
}

#[test]
fn sampling_clamps_out_of_range_coordinates() {
    let mut tm = TextureManager::new();
    let data = vec![1u8, 2, 3, 4, 5, 6, 7, 8];
    let t = to_cpu_texture(PixelKind::Rgba8, 2, 1, &data).unwrap();
    tm.insert('a', t);
    // Far beyond the right edge samples the last texel, never errors.
    assert_eq!(tm.sample('a', 999, 999), tm.sample('a', 1, 0));
    assert_eq!(tm.sample('a', 1, 0), Color::rgba(5, 6, 7, 8));
}

#[test]
fn install_recovers_with_placeholder() {
    let mut tm = TextureManager::new();
    // A good asset decodes and installs.
    tm.install_or_dummy('a', PixelKind::Gray8, 1, 1, &vec![9u8]);
    assert_eq!(tm.sample('a', 0, 0), Color::rgba(9, 9, 9, 255));
    // A malformed asset (wrong byte count) degrades to the checkerboard.
    tm.install_or_dummy('b', PixelKind::Rgb8, 2, 2, &vec![1u8, 2]);
    assert_eq!(tm.get_size('b'), (64, 64));
    assert_eq!(tm.sample('b', 0, 0), Color::rgba(255, 0, 255, 255));
    // An unsupported layout degrades the same way.
    tm.install_or_dummy('c', PixelKind::Unsupported, 1, 1, &vec![0u8, 0, 0, 0]);
    assert_eq!(tm.get_size('c'), (64, 64));
}

#[test]
fn later_insertion_shadows_earlier() {
    let mut tm = TextureManager::new();
    let a = to_cpu_texture(PixelKind::Gray8, 1, 1, &vec![10u8]).unwrap();
    let b = to_cpu_texture(PixelKind::Gray8, 1, 1, &vec![20u8]).unwrap();
    tm.insert('a', a);
    tm.insert('a', b);
    assert_eq!(tm.sample('a', 0, 0), Color::rgba(20, 20, 20, 255));
}

fn four_texel_ground() -> CpuTexture {
    let data = vec![
        1u8, 2, 3, 4, //
        5, 6, 7, 8, //
        9, 10, 11, 12, //
        13, 14, 15, 16,
    ];
    to_cpu_texture(PixelKind::Rgba8, 2, 2, &data).unwrap()
}

#[test]
fn tileable_sampling_wraps() {
    // Sampling a tileable texture at u = 1.25 equals sampling at u = 0.25.
    let mut tm = TextureManager::new();
    tm.set_ground(four_texel_ground());
    tm.set_sky(four_texel_ground());
    let q = FX_ONE / 4;
    assert_eq!(tm.sample_ground(FX_ONE + q, q), tm.sample_ground(q, q));
    assert_eq!(tm.sample_ground(5 * FX_ONE + q, q), tm.sample_ground(q, q));
    assert_eq!(tm.sample_ground(-FX_ONE + q, q), tm.sample_ground(q, q));
    assert_eq!(tm.sample_sky(FX_ONE + q, q), tm.sample_sky(q, q));
    // And different texels do differ.
    assert_ne!(tm.sample_ground(q, q), tm.sample_ground(3 * FX_ONE / 4, q));
    assert_eq!(tm.sample_ground(q, q), Color::rgba(1, 2, 3, 4));
    assert_eq!(tm.sample_ground(3 * FX_ONE / 4, q), Color::rgba(5, 6, 7, 8));
}

#[test]
fn sky_gradient_fallback_values() {
    let tm = TextureManager::new();
    // Zenith: (80, 130, 120); horizon: (30, 50, 200).
    assert_eq!(tm.sample_sky(0, 0), Color::rgba(80, 130, 120, 255));
    assert_eq!(tm.sample_sky(0, FX_ONE), Color::rgba(30, 50, 200, 255));
    // A clamped vertical coordinate beyond the texture falls back too.
    let mut tm2 = TextureManager::new();
    tm2.set_sky(four_texel_ground());
    assert_eq!(tm2.sample_sky(0, 2 * FX_ONE), Color::rgba(30, 50, 200, 255));
    // Without a ground texture the flat fallback color is used.
    assert_eq!(tm.sample_ground(0, 0), Color::rgba(40, 40, 60, 255));
}

#[test]
fn flashlight_model_extremes() {
    let max = 7 * 64 * FX_ONE;
    // Dead center at zero distance: fully bright.
    assert_eq!(flashlight(FX_ONE, 0, max), FX_ONE);
    // At the range limit: ambient only.
    assert_eq!(flashlight(0, max, max), AMBIENT_FX);
    // Monotone in between for a centered beam.
    let near = flashlight(FX_ONE, max / 8, max);
    let far = flashlight(FX_ONE, max / 2, max);
    assert!(near >= far);
    assert!(far >= AMBIENT_FX);
}

#[test]
fn angular_falloff_shape() {
    assert_eq!(ang_factor(0), FX_ONE);
    // At and beyond the cone edge the factor is zero.
    assert_eq!(ang_factor(22876), 0);
    assert_eq!(ang_factor(100000), 0);
    let inner = ang_factor(5000);
    let outer = ang_factor(15000);
    assert!(inner > outer);
    assert!(outer > 0);
}

#[test]
fn distance_attenuation_formulas() {
    // At zero distance both attenuations are full brightness; far away they
    // rest on their clamp floors.
    assert_eq!(wall_base(0), FX_ONE);
    assert_eq!(wall_base(FX_INF), WALL_BASE_MIN_FX);
    assert_eq!(row_shade(0), FX_ONE);
    assert_eq!(row_shade(FX_INF), ROW_SHADE_MIN_FX);
    // One cell of row distance: 1 / (1 + 0.15) rounds to 56987.
    assert_eq!(row_shade(FX_ONE), 56988);
    // 500 world units of wall distance: 1 / (1 + 500 * 0.002).
    assert_eq!(wall_base(500 * FX_ONE), 32777);
}

#[test]
fn shading_attenuates_channels_exactly() {
    let c = Color::rgba(200, 100, 50, 255);
    assert_eq!(shade_color(c, FX_HALF), Color::rgba(100, 50, 25, 255));
    assert_eq!(shade_color(c, FX_ONE), c);
    assert_eq!(shade_color(c, 0), Color::rgba(0, 0, 0, 255));
}

#[test]
fn render_fills_depth_buffer_with_wall_distances() {
    let m = ring_maze(5);
    let mut fb = Framebuffer::new(64, 48);
    let mut tm = TextureManager::new();
    tm.load_defaults();
    let player = Player {
        pos: Vec2Fx { x: 160 * FX_ONE, y: 160 * FX_ONE },
        a: 0,
        fov: PI_FX / 3,
    };
    let mut depth: Vec<i64> = vec![0; 64];
    render_world(&mut fb, &m, 64, &player, &tm, &mut depth);

    assert_eq!(depth.len(), 64);
    for d in depth.iter() {
        // The ring encloses the camera: every column hits.
        assert!(*d > 0 && *d < FX_INF);
    }
    // The centered column looks straight at a wall 1.5 cells away.
    let center = depth[32];
    assert!((center - 96 * FX_ONE).abs() <= FX_ONE / 8);
    // Depth is monotonically consistent with distance: edge rays travel
    // farther than the centered ray.
    assert!(depth[0] > center);
    assert!(depth[63] > center);
}

#[test]
fn render_keeps_frame_shape_and_draws_walls() {
    let m = ring_maze(5);
    let mut fb = Framebuffer::new(64, 48);
    let mut tm = TextureManager::new();
    tm.load_defaults();
    let player = Player {
        pos: Vec2Fx { x: 160 * FX_ONE, y: 160 * FX_ONE },
        a: 0,
        fov: PI_FX / 3,
    };
    let mut depth: Vec<i64> = vec![0; 64];
    render_world(&mut fb, &m, 64, &player, &tm, &mut depth);
    assert_eq!(fb.width, 64);
    assert_eq!(fb.height, 48);
    // The wall strip at the screen center is no longer the initial black
    // in at least one channel (the placeholder checkerboard is lit).
    let mut changed = false;
    for y in 0..48 {
        if fb.pixel_at(32, y) != Color::black() {
            changed = true;
        }
    }
    assert!(changed);
    // The top rows lie above every wall strip here, so they show the sky
    // (the gradient fallback, since no sky texture is loaded).
    assert_eq!(fb.pixel_at(0, 0), Color::rgba(80, 130, 120, 255));
    assert_eq!(fb.pixel_at(63, 0), Color::rgba(80, 130, 120, 255));
}

#[test]
fn minimap_cell_fill_is_exact() {
    let mut fb = Framebuffer::new(5, 5);
    draw_cell(&mut fb, 1, 1, 2, '+');
    let lavender = cell_to_color('+');
    for y in 0..5 {
        for x in 0..5 {
            if (1..3).contains(&x) && (1..3).contains(&y) {
                assert_eq!(fb.pixel_at(x, y), lavender);
            } else {
                assert_eq!(fb.pixel_at(x, y), Color::black());
            }
        }
    }
    // An empty cell draws nothing.
    let mut fb2 = Framebuffer::new(5, 5);
    draw_cell(&mut fb2, 0, 0, 4, ' ');
    for y in 0..5 {
        for x in 0..5 {
            assert_eq!(fb2.pixel_at(x, y), Color::black());
        }
    }
}

#[test]
fn projection_plane_distance_is_positive() {
    let p = proj_plane(64, PI_FX / 3);
    // width / (2 tan(30 deg)) is about 55.4 pixels.
    assert!(p > 50 * FX_ONE && p < 60 * FX_ONE);
}
