//! The scene rasterizer: sky rows, floor rows by per-row interpolation,
//! textured wall columns found by the DDA caster, and the flashlight light
//! model, all writing one frame into the color buffer and filling the
//! per-column depth buffer that the sprite projector reads.

use vstd::prelude::*;
use crate::fixed::{
    FX_ONE, FX_HALF, FX_INF, sabs, fx_mul_spec, fx_div_spec, sat_add_spec, muldiv_sat_spec,
    clamp_spec, sqrt_of, is_sqrt, fx_mul, fx_div, sat_add, muldiv_sat, clamp_fx, sqrt_fx,
    floor_div, isqrt64, lemma_sqrt_unique, lemma_fx_mul_unit_bound, lemma_nonneg_div_matches,
    lemma_fx_mul_double_bound,
};
use crate::maze::{Maze, EMPTY_CELL};
use crate::caster::{Intersect, cast_spec, cast_ray_dir, POS_LIMIT, MAZE_DIM_LIMIT, BLOCK_LIMIT};
use crate::framebuffer::{Color, Framebuffer};
use crate::textures::{TextureManager, lookup, sample_spec, sample_sky_spec};
use crate::trig::{
    PI_FX, TWO_PI_FX, norm_angle_spec, sin_fx_spec, cos_fx_spec, norm_angle, sin_fx, cos_fx,
    atan2_fx,
};
use crate::player::Player;

verus! {

/// Half-angle of the flashlight cone (a ninth of a half turn).
pub const CONE_HALF_FX: i64 = 22876;

/// Ambient light floor (0.05).
pub const AMBIENT_FX: i64 = 3277;

/// Weight of the linear term against the square root in the distance
/// falloff blend (0.4).
pub const BLEND40_FX: i64 = 26214;

/// Weight of the hotspot term (0.35).
pub const HOT_W_FX: i64 = 22938;

/// Constant term of the hotspot brightness polynomial (0.86).
pub const HOT_A_FX: i64 = 56361;

/// Linear term of the hotspot brightness polynomial (0.14).
pub const HOT_B_FX: i64 = 9175;

/// Per-cell darkening of floor rows with distance (0.15).
pub const ROW_SHADE_K_FX: i64 = 9830;

/// Per-unit darkening of walls with distance (0.002).
pub const WALL_DIST_K_FX: i64 = 131;

/// Lower clamp of the wall base attenuation (0.2).
pub const WALL_BASE_MIN_FX: i64 = 13107;

/// Lower clamp of the combined wall shade before lighting (0.15).
pub const WALL_SHADE_MIN_FX: i64 = 9830;

/// Darkening factor for horizontal-face wall hits (0.75).
pub const SIDE_DARKEN_FX: i64 = 49152;

/// Lower clamp of the floor row shade (0.05).
pub const ROW_SHADE_MIN_FX: i64 = 3277;

/// Flashlight range, in grid cells.
pub const FLASH_RANGE_CELLS: i64 = 7;

/// Vertical stride of the floor pass: every second row is computed and
/// duplicated into the next.
pub const FLOOR_STEP: usize = 2;

/// Angular falloff of the flashlight: the clamped linear falloff over the
/// cone, sharpened by `x * sqrt(x)`.
pub open spec fn ang_factor_spec(ang_diff: int) -> int {
    let lin = clamp_spec(
        (FX_ONE as int) - sabs(ang_diff) * (FX_ONE as int) / (CONE_HALF_FX as int),
        0,
        FX_ONE as int,
    );
    fx_mul_spec(lin, sqrt_of(lin * (FX_ONE as int)))
}

/// An integer square root of a unit-range fixed-point value stays in the
/// unit range and does not fall below its argument.
pub proof fn lemma_sqrt_unit_range(v: int, r: int)
    by (nonlinear_arith)
    requires
        is_sqrt(v * (FX_ONE as int), r),
        0 <= v <= FX_ONE,
    ensures
        v <= r <= FX_ONE,
{
}

/// Angular falloff, in `[0, FX_ONE]`.
pub fn ang_factor(ang_diff: i64) -> (r: i64)
    requires
        -0x1000_0000 <= ang_diff <= 0x1000_0000,
    ensures
        r == ang_factor_spec(ang_diff as int),
        0 <= r <= FX_ONE,
{
    let aa: i64 = if ang_diff < 0 {
        -ang_diff
    } else {
        ang_diff
    };
    let ratio: i64 = aa * FX_ONE / CONE_HALF_FX;
    proof {
        lemma_nonneg_div_matches(aa as int * FX_ONE, CONE_HALF_FX as int);
    }
    let lin: i64 = clamp_fx(FX_ONE - ratio, 0, FX_ONE);
    let s: i64 = sqrt_fx(lin);
    proof {
        lemma_sqrt_unit_range(lin as int, s as int);
        lemma_fx_mul_unit_bound(lin as int, s as int);
        lemma_nonneg_div_matches(lin as int * s as int, FX_ONE as int);
    }
    fx_mul(lin, s)
}

/// The flashlight brightness at distance `dist` from the camera for a point
/// whose angular falloff is `af`: ambient floor, plus the shaped product of
/// angular and distance falloff, plus a bright hotspot core, clamped at 1.
pub open spec fn flashlight_spec(af: int, dist: int, max_dist: int) -> int {
    let lin = clamp_spec(
        (FX_ONE as int) - muldiv_sat_spec(dist, FX_ONE as int, max_dist),
        0,
        FX_ONE as int,
    );
    let sd = sqrt_of(lin * (FX_ONE as int));
    let df = sd + fx_mul_spec(lin - sd, BLEND40_FX as int);
    let hw = (FX_ONE as int) - clamp_spec(
        muldiv_sat_spec(dist, FX_ONE as int, max_dist / 4),
        0,
        FX_ONE as int,
    );
    let hw2 = fx_mul_spec(hw, hw);
    let hot = fx_mul_spec(
        fx_mul_spec(hw2, (HOT_A_FX as int) + fx_mul_spec(HOT_B_FX as int, hw)),
        af,
    );
    let cb = fx_mul_spec(af, df);
    let s2 = sqrt_of(sqrt_of(cb * (FX_ONE as int)) * (FX_ONE as int));
    let core = fx_mul_spec(cb, s2);
    let light = (AMBIENT_FX as int) + fx_mul_spec((FX_ONE as int) - (AMBIENT_FX as int), core)
        + fx_mul_spec(HOT_W_FX as int, hot);
    if light > FX_ONE {
        FX_ONE as int
    } else {
        light
    }
}

/// The flashlight brightness, in `[AMBIENT_FX, FX_ONE]`.
pub fn flashlight(af: i64, dist: i64, max_dist: i64) -> (r: i64)
    requires
        0 <= af <= FX_ONE,
        0 <= dist <= FX_INF,
        4 <= max_dist <= FX_INF,
    ensures
        r == flashlight_spec(af as int, dist as int, max_dist as int),
        AMBIENT_FX <= r <= FX_ONE,
{
    let ratio: i64 = muldiv_sat(dist, FX_ONE, max_dist);
    let lin: i64 = clamp_fx(FX_ONE - ratio, 0, FX_ONE);
    let sd: i64 = sqrt_fx(lin);
    proof {
        lemma_sqrt_unit_range(lin as int, sd as int);
        lemma_fx_mul_unit_bound((lin - sd) as int, BLEND40_FX as int);
    }
    let df: i64 = sd + fx_mul(lin - sd, BLEND40_FX);
    proof {
        assert(sabs(fx_mul_spec((lin - sd) as int, BLEND40_FX as int)) <= sabs((lin - sd) as int));
        assert(fx_mul_spec((lin - sd) as int, BLEND40_FX as int) <= 0) by {
            assert((lin - sd) <= 0);
        }
        assert(0 <= df <= FX_ONE);
    }
    let q: i64 = floor_div(max_dist, 4);
    let hratio: i64 = muldiv_sat(dist, FX_ONE, q);
    let hw: i64 = FX_ONE - clamp_fx(hratio, 0, FX_ONE);
    proof {
        lemma_fx_mul_unit_bound(hw as int, hw as int);
        lemma_nonneg_div_matches((hw as int) * (hw as int), FX_ONE as int);
    }
    let hw2: i64 = fx_mul(hw, hw);
    proof {
        lemma_fx_mul_unit_bound(HOT_B_FX as int, hw as int);
        lemma_nonneg_div_matches((HOT_B_FX as int) * (hw as int), FX_ONE as int);
    }
    let poly: i64 = HOT_A_FX + fx_mul(HOT_B_FX, hw);
    proof {
        lemma_fx_mul_unit_bound(hw2 as int, poly as int);
        lemma_nonneg_div_matches((hw2 as int) * (poly as int), FX_ONE as int);
    }
    let hin: i64 = fx_mul(hw2, poly);
    proof {
        lemma_fx_mul_unit_bound(hin as int, af as int);
        lemma_nonneg_div_matches((hin as int) * (af as int), FX_ONE as int);
    }
    let hot: i64 = fx_mul(hin, af);
    proof {
        lemma_fx_mul_unit_bound(af as int, df as int);
        lemma_nonneg_div_matches((af as int) * (df as int), FX_ONE as int);
    }
    let cb: i64 = fx_mul(af, df);
    let s1: i64 = sqrt_fx(cb);
    proof {
        lemma_sqrt_unit_range(cb as int, s1 as int);
    }
    let s2: i64 = sqrt_fx(s1);
    proof {
        lemma_sqrt_unit_range(s1 as int, s2 as int);
        lemma_fx_mul_unit_bound(cb as int, s2 as int);
        lemma_nonneg_div_matches((cb as int) * (s2 as int), FX_ONE as int);
    }
    let core: i64 = fx_mul(cb, s2);
    proof {
        lemma_fx_mul_unit_bound((FX_ONE - AMBIENT_FX) as int, core as int);
        lemma_nonneg_div_matches(((FX_ONE - AMBIENT_FX) as int) * (core as int), FX_ONE as int);
        lemma_fx_mul_unit_bound(HOT_W_FX as int, hot as int);
        lemma_nonneg_div_matches((HOT_W_FX as int) * (hot as int), FX_ONE as int);
    }
    let light: i64 = AMBIENT_FX + fx_mul(FX_ONE - AMBIENT_FX, core) + fx_mul(HOT_W_FX, hot);
    if light > FX_ONE {
        FX_ONE
    } else {
        light
    }
}

/// Attenuate a color's RGB channels by a factor in `[0, FX_ONE]`, keeping
/// its alpha.
pub open spec fn shade_color_spec(c: Color, f: int) -> Color {
    Color {
        r: (c.r * f / (FX_ONE as int)) as u8,
        g: (c.g * f / (FX_ONE as int)) as u8,
        b: (c.b * f / (FX_ONE as int)) as u8,
        a: c.a,
    }
}

pub fn shade_color(c: Color, f: i64) -> (r: Color)
    requires
        0 <= f <= FX_ONE,
    ensures
        r == shade_color_spec(c, f as int),
{
    proof {
        lemma_channel_shade(c.r as int, f as int);
        lemma_channel_shade(c.g as int, f as int);
        lemma_channel_shade(c.b as int, f as int);
    }
    Color {
        r: ((c.r as i64) * f / FX_ONE) as u8,
        g: ((c.g as i64) * f / FX_ONE) as u8,
        b: ((c.b as i64) * f / FX_ONE) as u8,
        a: c.a,
    }
}

/// Attenuating a channel keeps it within its 8-bit range.
proof fn lemma_channel_shade(v: int, f: int)
    by (nonlinear_arith)
    requires
        0 <= v <= 255,
        0 <= f <= FX_ONE,
    ensures
        0 <= v * f / (FX_ONE as int) <= v,
{
}

/// Shade of a floor row at interpolation distance `row_dist` (grid cells,
/// fixed): inverse falloff clamped to `[0.05, 1]`.
pub open spec fn row_shade_spec(row_dist: int) -> int {
    clamp_spec(
        fx_div_spec(FX_ONE as int, sat_add_spec(FX_ONE as int, fx_mul_spec(row_dist, ROW_SHADE_K_FX as int))),
        ROW_SHADE_MIN_FX as int,
        FX_ONE as int,
    )
}

pub fn row_shade(row_dist: i64) -> (r: i64)
    requires
        0 <= row_dist <= FX_INF,
    ensures
        r == row_shade_spec(row_dist as int),
        ROW_SHADE_MIN_FX <= r <= FX_ONE,
{
    proof {
        lemma_fx_mul_unit_bound(row_dist as int, ROW_SHADE_K_FX as int);
        assert(fx_mul_spec(row_dist as int, ROW_SHADE_K_FX as int) >= 0) by {
            lemma_nonneg_div_matches((row_dist as int) * (ROW_SHADE_K_FX as int), FX_ONE as int);
        }
    }
    let den: i64 = sat_add(FX_ONE, fx_mul(row_dist, ROW_SHADE_K_FX));
    clamp_fx(fx_div(FX_ONE, den), ROW_SHADE_MIN_FX, FX_ONE)
}

/// Base distance attenuation of a wall column, clamped to `[0.2, 1]`.
pub open spec fn wall_base_spec(dist: int) -> int {
    clamp_spec(
        fx_div_spec(FX_ONE as int, sat_add_spec(FX_ONE as int, fx_mul_spec(dist, WALL_DIST_K_FX as int))),
        WALL_BASE_MIN_FX as int,
        FX_ONE as int,
    )
}

pub fn wall_base(dist: i64) -> (r: i64)
    requires
        0 <= dist <= FX_INF,
    ensures
        r == wall_base_spec(dist as int),
        WALL_BASE_MIN_FX <= r <= FX_ONE,
{
    proof {
        lemma_fx_mul_unit_bound(dist as int, WALL_DIST_K_FX as int);
        assert(fx_mul_spec(dist as int, WALL_DIST_K_FX as int) >= 0) by {
            lemma_nonneg_div_matches((dist as int) * (WALL_DIST_K_FX as int), FX_ONE as int);
        }
    }
    let den: i64 = sat_add(FX_ONE, fx_mul(dist, WALL_DIST_K_FX));
    clamp_fx(fx_div(FX_ONE, den), WALL_BASE_MIN_FX, FX_ONE)
}

/// The frame keeps its size and background across a render pass.
pub open spec fn frame_shape_kept(a: Framebuffer, b: Framebuffer) -> bool {
    &&& b.wf()
    &&& b.width == a.width
    &&& b.height == a.height
    &&& b.background_spec() == a.background_spec()
}

/// Camera-relative column offset in `[-FX_ONE, FX_ONE)`.
pub open spec fn column_offset_spec(sx: int, width: int) -> int {
    2 * sx * (FX_ONE as int) / width - (FX_ONE as int)
}

/// The absolute angle of the ray through screen column `sx`.
pub open spec fn column_angle_spec(a: int, fov: int, sx: int, width: int) -> int {
    a + fx_mul_spec(column_offset_spec(sx, width), fov / 2)
}

pub open spec fn ray_dir_x_spec(angle: int) -> int {
    cos_fx_spec(angle)
}

pub open spec fn ray_dir_y_spec(angle: int) -> int {
    sin_fx_spec(norm_angle_spec(angle))
}

/// The intersection found by the ray through screen column `sx`.
pub open spec fn column_cast_spec(maze: Maze, p: Player, block: int, sx: int, width: int) -> Intersect {
    let ang = column_angle_spec(p.a as int, p.fov as int, sx, width);
    cast_spec(
        maze,
        p.pos.x as int,
        p.pos.y as int,
        ray_dir_x_spec(ang),
        ray_dir_y_spec(ang),
        block,
    )
}

/// The depth buffer entry of column `sx`: the hit's perpendicular distance,
/// or the sentinel `FX_INF` when the ray misses.
pub open spec fn wall_depth_spec(maze: Maze, p: Player, block: int, sx: int, width: int) -> int {
    let inter = column_cast_spec(maze, p, block, sx, width);
    if inter.impact == EMPTY_CELL || inter.distance <= 0 {
        FX_INF as int
    } else {
        inter.distance as int
    }
}

/// The ray through column `sx` found no wall to draw.
pub open spec fn column_missed_spec(maze: Maze, p: Player, block: int, sx: int, width: int) -> bool {
    let inter = column_cast_spec(maze, p, block, sx, width);
    inter.impact == EMPTY_CELL || inter.distance <= 0
}

/// Law: the depth buffer is monotonically consistent with perpendicular
/// distance: of two columns that both hit with positive distance, the one
/// with the closer wall gets the strictly smaller depth value.
pub proof fn lemma_depth_monotone(
    maze: Maze,
    p: Player,
    block: int,
    i: int,
    j: int,
    width: int,
)
    ensures
        ({
            let ci = column_cast_spec(maze, p, block, i, width);
            let cj = column_cast_spec(maze, p, block, j, width);
            (ci.impact != EMPTY_CELL && 0 < ci.distance && cj.impact != EMPTY_CELL && 0
                < cj.distance && ci.distance < cj.distance) ==> wall_depth_spec(
                maze,
                p,
                block,
                i,
                width,
            ) < wall_depth_spec(maze, p, block, j, width)
        }),
{
}

/// Inputs on which the rasterizer is specified.
pub open spec fn render_inputs_ok(fb: Framebuffer, maze: Maze, block: int, p: Player) -> bool {
    &&& fb.wf()
    &&& maze.wf()
    &&& maze.spec_height() <= MAZE_DIM_LIMIT
    &&& maze.spec_width() <= MAZE_DIM_LIMIT
    &&& 1 <= block <= BLOCK_LIMIT
    &&& -POS_LIMIT <= p.pos.x <= POS_LIMIT
    &&& -POS_LIMIT <= p.pos.y <= POS_LIMIT
    &&& -PI_FX <= p.a <= PI_FX
    &&& 0 < p.fov <= PI_FX
}

/// Distance from the camera to the projection plane, in pixel units
/// (fixed): `width / (2 * tan(fov / 2))`, with the tangent clamped away
/// from zero and from the saturation bound.
pub open spec fn proj_plane_spec(width: int, fov: int) -> int {
    let sh = sin_fx_spec(fov / 2);
    let ch = cos_fx_spec(fov / 2);
    let t_raw = if ch == 0 {
        FX_INF as int
    } else {
        fx_div_spec(sh, ch)
    };
    let t = clamp_spec(t_raw, 1, 0x2000_0000_0000);
    muldiv_sat_spec(width * (FX_ONE as int), FX_ONE as int, 2 * t)
}

/// Distance to the projection plane, in pixel units (fixed).
pub fn proj_plane(width: u32, fov: i64) -> (r: i64)
    requires
        width <= 16384,
        0 < fov <= PI_FX,
    ensures
        r == proj_plane_spec(width as int, fov as int),
        0 <= r <= FX_INF,
{
    let fov2: i64 = ((fov as u64) / 2) as i64;
    let sh: i64 = sin_fx(fov2);
    let ch: i64 = cos_fx(fov2);
    let t_raw: i64 = if ch == 0 {
        FX_INF
    } else {
        fx_div(sh, ch)
    };
    let t: i64 = clamp_fx(t_raw, 1, 0x2000_0000_0000);
    muldiv_sat((width as i64) * FX_ONE, FX_ONE, 2 * t)
}

/// Width of the wall texture a tag resolves to (1 for the missing-texture
/// stand-in).
pub open spec fn wall_tex_w_spec(tex: TextureManager, ch: char) -> int {
    match lookup(tex.tex@, ch) {
        Some(t) => t.w as int,
        None => 1,
    }
}

/// Height of the wall texture a tag resolves to.
pub open spec fn wall_tex_h_spec(tex: TextureManager, ch: char) -> int {
    match lookup(tex.tex@, ch) {
        Some(t) => t.h as int,
        None => 1,
    }
}

/// Projected wall strip height in pixels: `block * proj / dist`.
pub open spec fn wall_h_px_spec(block: int, proj: int, dist: int) -> int {
    muldiv_sat_spec(block * (FX_ONE as int), proj, dist) / (FX_ONE as int)
}

/// First screen row of the wall strip: centered on the horizon, clamped.
pub open spec fn wall_top_spec(height: int, block: int, proj: int, dist: int) -> int {
    let t = height / 2 - wall_h_px_spec(block, proj, dist) / 2;
    if t < 0 {
        0
    } else {
        t
    }
}

/// Last screen row of the wall strip, clamped.
pub open spec fn wall_bottom_spec(height: int, block: int, proj: int, dist: int) -> int {
    let b = height / 2 + wall_h_px_spec(block, proj, dist) / 2;
    if b > height - 1 {
        height - 1
    } else {
        b
    }
}

/// Horizontal texture column of the strip: the hit's sub-cell fraction
/// scaled to the texture width, flipped when the ray would otherwise sample
/// the wall mirrored.
pub open spec fn wall_tex_x_spec(
    tex: TextureManager,
    impact: char,
    wall_x: int,
    side: int,
    dir_x: int,
    dir_y: int,
) -> int {
    let tw = wall_tex_w_spec(tex, impact);
    let tx = wall_x * tw / (FX_ONE as int);
    if side == 0 && dir_x > 0 {
        tw - 1 - tx
    } else if side == 1 && dir_y < 0 {
        tw - 1 - tx
    } else {
        tx
    }
}

/// The shade applied to every texel of a wall strip: base distance
/// attenuation, darkened on horizontal faces, scaled by the flashlight (or
/// ambient beyond its range), clamped to `[ambient, 1]`.
pub open spec fn wall_shade_spec(dist: int, side: int, ang_off: int, block: int) -> int {
    let base = wall_base_spec(dist);
    let sfac = if side == 1 {
        fx_mul_spec(base, SIDE_DARKEN_FX as int)
    } else {
        base
    };
    let shade0 = clamp_spec(sfac, WALL_SHADE_MIN_FX as int, FX_ONE as int);
    let flash_max = (FLASH_RANGE_CELLS as int) * block * (FX_ONE as int);
    let light = if dist > flash_max {
        AMBIENT_FX as int
    } else {
        flashlight_spec(ang_factor_spec(ang_off), dist, flash_max)
    };
    clamp_spec(fx_mul_spec(shade0, light), AMBIENT_FX as int, FX_ONE as int)
}

/// Vertical texture row of strip row `dy` (counted from the strip top):
/// proportional stepping by `th * FX_ONE / strip_height`.
pub open spec fn wall_ty_spec(height: int, block: int, proj: int, dist: int, th: int, dy: int) -> int {
    let top = wall_top_spec(height, block, proj, dist);
    let bottom = wall_bottom_spec(height, block, proj, dist);
    let col_h = if bottom - top >= 1 {
        bottom - top
    } else {
        1
    };
    (dy * (th * (FX_ONE as int) / col_h)) / (FX_ONE as int)
}

/// The color written at strip row `dy` of a wall column: the sampled texel
/// under the strip shade.
pub open spec fn wall_row_pixel_spec(
    tex: TextureManager,
    impact: char,
    wall_x: int,
    side: int,
    dir_x: int,
    dir_y: int,
    ang_off: int,
    block: int,
    proj: int,
    dist: int,
    height: int,
    dy: int,
) -> Color {
    shade_color_spec(
        sample_spec(
            tex,
            impact,
            wall_tex_x_spec(tex, impact, wall_x, side, dir_x, dir_y),
            wall_ty_spec(height, block, proj, dist, wall_tex_h_spec(tex, impact), dy),
        ),
        wall_shade_spec(dist, side, ang_off, block),
    )
}

/// Draw one textured, shaded wall strip for a hit at screen column `sx`:
/// every row of the clamped strip receives exactly the texel and shade that
/// `wall_row_pixel_spec` says; no other pixel changes.
#[verifier::loop_isolation(false)]
#[verifier::rlimit(100)]
fn draw_wall_column(
    fb: &mut Framebuffer,
    tex: &TextureManager,
    sx: u32,
    inter: Intersect,
    dir_x: i64,
    dir_y: i64,
    ang_off: i64,
    block_size: usize,
    proj: i64,
)
    requires
        old(fb).wf(),
        tex.wf(),
        0 < inter.distance <= FX_INF,
        0 <= inter.wall_x < FX_ONE,
        1 <= block_size <= BLOCK_LIMIT,
        -0x1000_0000 <= ang_off <= 0x1000_0000,
        0 <= proj <= FX_INF,
    ensures
        frame_shape_kept(*old(fb), *final(fb)),
        forall|qx: int, qy: int|
            0 <= qx < old(fb).width && 0 <= qy < old(fb).height ==> final(fb).pixel(qx, qy) == (
            if qx == sx && wall_top_spec(
                old(fb).height as int,
                block_size as int,
                proj as int,
                inter.distance as int,
            ) <= qy <= wall_bottom_spec(
                old(fb).height as int,
                block_size as int,
                proj as int,
                inter.distance as int,
            ) {
                wall_row_pixel_spec(
                    *tex,
                    inter.impact,
                    inter.wall_x as int,
                    inter.side as int,
                    dir_x as int,
                    dir_y as int,
                    ang_off as int,
                    block_size as int,
                    proj as int,
                    inter.distance as int,
                    old(fb).height as int,
                    qy - wall_top_spec(
                        old(fb).height as int,
                        block_size as int,
                        proj as int,
                        inter.distance as int,
                    ),
                )
            } else {
                old(fb).pixel(qx, qy)
            }),
{
    let ghost gh = old(fb).height as int;
    let height: i64 = fb.height as i64;
    let half_h: i64 = ((height as u64) / 2) as i64;
    let block_fx: i64 = (block_size as i64) * FX_ONE;
    let flash_max: i64 = FLASH_RANGE_CELLS * block_fx;
    let dist: i64 = inter.distance;

    let wall_h: i64 = (((muldiv_sat(block_fx, proj, dist)) as u64) / (FX_ONE as u64)) as i64;
    assert(wall_h == wall_h_px_spec(block_size as int, proj as int, dist as int));
    let mut top: i64 = half_h - ((wall_h as u64) / 2) as i64;
    let mut bottom: i64 = half_h + ((wall_h as u64) / 2) as i64;
    if top < 0 {
        top = 0;
    }
    if bottom > height - 1 {
        bottom = height - 1;
    }
    assert(top == wall_top_spec(gh, block_size as int, proj as int, dist as int));
    assert(bottom == wall_bottom_spec(gh, block_size as int, proj as int, dist as int));

    let (tw, th) = tex.get_size(inter.impact);
    proof {
        crate::textures::lemma_lookup_wf(tex.tex@, inter.impact);
        assert((inter.wall_x as int) * (tw as int) / (FX_ONE as int) < tw && 0 <= (
        inter.wall_x as int) * (tw as int)) by (nonlinear_arith)
            requires
                0 <= inter.wall_x < FX_ONE,
                1 <= tw,
        ;
    }
    let mut tx: u32 = (((inter.wall_x as u64) * (tw as u64)) / (FX_ONE as u64)) as u32;
    if inter.side == 0 && dir_x > 0 {
        tx = tw - 1 - tx;
    }
    if inter.side == 1 && dir_y < 0 {
        tx = tw - 1 - tx;
    }
    assert(tx == wall_tex_x_spec(
        *tex,
        inter.impact,
        inter.wall_x as int,
        inter.side as int,
        dir_x as int,
        dir_y as int,
    ));

    let base: i64 = wall_base(dist);
    proof {
        lemma_fx_mul_unit_bound(base as int, SIDE_DARKEN_FX as int);
    }
    let sfac: i64 = if inter.side == 1 {
        fx_mul(base, SIDE_DARKEN_FX)
    } else {
        base
    };
    let shade0: i64 = clamp_fx(sfac, WALL_SHADE_MIN_FX, FX_ONE);
    let af: i64 = ang_factor(ang_off);
    let light: i64 = if dist > flash_max {
        AMBIENT_FX
    } else {
        flashlight(af, dist, flash_max)
    };
    proof {
        lemma_fx_mul_unit_bound(shade0 as int, light as int);
    }
    let shade: i64 = clamp_fx(fx_mul(shade0, light), AMBIENT_FX, FX_ONE);
    assert(shade == wall_shade_spec(dist as int, inter.side as int, ang_off as int, block_size as int));

    let col_h: i64 = if bottom - top >= 1 {
        bottom - top
    } else {
        1
    };
    let ty_step: i64 = (((th as u64) * (FX_ONE as u64)) / (col_h as u64)) as i64;
    assert(ty_step <= 0x1000_0000) by {
        lemma_nonneg_div_matches((th as int) * (FX_ONE as int), col_h as int);
        assert((th as int) * (FX_ONE as int) <= 0x1000_0000) by (nonlinear_arith)
            requires
                1 <= th <= 4096,
        ;
    }
    let mut ty_f: i64 = 0;
    let mut sy: i64 = top;
    while sy <= bottom
        invariant
            0 <= top <= sy,
            sy <= bottom + 1 <= height,
            frame_shape_kept(*old(fb), *fb),
            ty_f == (sy - top) * ty_step,
            0 <= ty_f <= (sy - top) * 0x1000_0000,
            0 <= ty_step <= 0x1000_0000,
            forall|qx: int, qy: int|
                0 <= qx < old(fb).width && 0 <= qy < old(fb).height ==> fb.pixel(qx, qy) == (
                if qx == sx && top <= qy < sy {
                    wall_row_pixel_spec(
                        *tex,
                        inter.impact,
                        inter.wall_x as int,
                        inter.side as int,
                        dir_x as int,
                        dir_y as int,
                        ang_off as int,
                        block_size as int,
                        proj as int,
                        inter.distance as int,
                        gh,
                        qy - top,
                    )
                } else {
                    old(fb).pixel(qx, qy)
                }),
        decreases bottom + 1 - sy,
    {
        let ty: u32 = ((ty_f as u64) / (FX_ONE as u64)) as u32;
        proof {
            assert((sy - top) * 0x1000_0000 + 0x1000_0000 == (sy + 1 - top)
                * 0x1000_0000) by (nonlinear_arith);
            assert((sy - top) * 0x1000_0000 <= 0x4000 * 0x1000_0000) by (nonlinear_arith)
                requires
                    0 <= sy - top <= 0x4000,
            ;
            assert((sy - top) * ty_step + ty_step == (sy + 1 - top) * ty_step) by (nonlinear_arith);
            assert(0 <= (sy - top) * ty_step <= (sy - top) * 0x1000_0000) by (nonlinear_arith)
                requires
                    0 <= sy - top,
                    0 <= ty_step <= 0x1000_0000,
            ;
            assert(ty == wall_ty_spec(
                gh,
                block_size as int,
                proj as int,
                dist as int,
                th as int,
                sy - top,
            ));
        }
        ty_f = ty_f + ty_step;
        let c: Color = tex.sample(inter.impact, tx, ty);
        let c2: Color = shade_color(c, shade);
        proof {
            assert(c2 == wall_row_pixel_spec(
                *tex,
                inter.impact,
                inter.wall_x as int,
                inter.side as int,
                dir_x as int,
                dir_y as int,
                ang_off as int,
                block_size as int,
                proj as int,
                inter.distance as int,
                gh,
                sy - top,
            ));
        }
        let ghost prev = *fb;
        fb.set_pixel_color(sx, sy as u32, c2);
        proof {
            assert forall|qx: int, qy: int|
                0 <= qx < old(fb).width && 0 <= qy < old(fb).height implies fb.pixel(qx, qy) == (
                if qx == sx && top <= qy < sy + 1 {
                    wall_row_pixel_spec(
                        *tex,
                        inter.impact,
                        inter.wall_x as int,
                        inter.side as int,
                        dir_x as int,
                        dir_y as int,
                        ang_off as int,
                        block_size as int,
                        proj as int,
                        inter.distance as int,
                        gh,
                        qy - top,
                    )
                } else {
                    old(fb).pixel(qx, qy)
                }) by {
                if prev.pix_in_bounds(sx as int, sy as int) {
                    crate::framebuffer::lemma_row_major_in_range(
                        qx,
                        qy,
                        prev.width as int,
                        prev.height as int,
                    );
                    crate::framebuffer::lemma_row_major_in_range(
                        sx as int,
                        sy as int,
                        prev.width as int,
                        prev.height as int,
                    );
                    if qy * (prev.width as int) + qx == (sy as int) * (prev.width as int) + (
                    sx as int) {
                        crate::framebuffer::lemma_row_major_injective(
                            qx,
                            qy,
                            sx as int,
                            sy as int,
                            prev.width as int,
                        );
                        assert(fb.pixel(qx, qy) == c2);
                    } else {
                        assert(fb.pixel(qx, qy) == prev.pixel(qx, qy));
                        assert(!(qx == sx && qy == sy));
                    }
                } else {
                    assert(fb.pixels() == prev.pixels());
                    assert(fb.pixel(qx, qy) == prev.pixel(qx, qy));
                    assert(!(qx == sx && qy == sy));
                }
            }
        }
        sy = sy + 1;
    }
}

/// The color the sky pass gives a pixel of the upper half: the tileable
/// sky (or its gradient fallback) sampled at the heading fraction plus the
/// column fraction, and the row fraction of the half screen.
pub open spec fn sky_pixel_spec(
    tex: TextureManager,
    a: int,
    width: int,
    height: int,
    x: int,
    y: int,
) -> Color {
    let u = fx_div_spec(a, TWO_PI_FX as int) + x * (FX_ONE as int) / width;
    let v = y * (FX_ONE as int) / (height / 2);
    sample_sky_spec(tex, u, v)
}

/// The sky pass: every pixel of the upper half becomes its sky sample; rows
/// at or below the horizon are never touched.
#[verifier::loop_isolation(false)]
fn render_sky(fb: &mut Framebuffer, tex: &TextureManager, a: i64)
    requires
        old(fb).wf(),
        tex.wf(),
        -PI_FX <= a <= PI_FX,
    ensures
        frame_shape_kept(*old(fb), *final(fb)),
        forall|qx: int, qy: int|
            0 <= qx < old(fb).width && 0 <= qy < old(fb).height ==> final(fb).pixel(qx, qy) == (
            if qy < old(fb).height as int / 2 {
                sky_pixel_spec(
                    *tex,
                    a as int,
                    old(fb).width as int,
                    old(fb).height as int,
                    qx,
                    qy,
                )
            } else {
                old(fb).pixel(qx, qy)
            }),
{
    let ghost gw = old(fb).width as int;
    let ghost gh = old(fb).height as int;
    let half_h: u32 = fb.height / 2;
    let width: u32 = fb.width;
    let u_base: i64 = fx_div(a, TWO_PI_FX);
    let mut y: u32 = 0;
    while y < half_h
        invariant
            y <= half_h,
            frame_shape_kept(*old(fb), *fb),
            forall|qx: int, qy: int|
                0 <= qx < gw && 0 <= qy < gh ==> fb.pixel(qx, qy) == (if qy < y {
                    sky_pixel_spec(*tex, a as int, gw, gh, qx, qy)
                } else {
                    old(fb).pixel(qx, qy)
                }),
        decreases half_h - y,
    {
        let v: i64 = (((y as u64) * (FX_ONE as u64)) / (half_h as u64)) as i64;
        let mut x: u32 = 0;
        while x < width
            invariant
                x <= width,
                y < half_h,
                v == (y as int) * (FX_ONE as int) / (gh / 2),
                frame_shape_kept(*old(fb), *fb),
                forall|qx: int, qy: int|
                    0 <= qx < gw && 0 <= qy < gh ==> fb.pixel(qx, qy) == (if qy < y || (qy == y
                        && qx < x) {
                        sky_pixel_spec(*tex, a as int, gw, gh, qx, qy)
                    } else {
                        old(fb).pixel(qx, qy)
                    }),
            decreases width - x,
        {
            let ghost entry = *fb;
            let u: i64 = u_base + (((x as u64) * (FX_ONE as u64)) / (width as u64)) as i64;
            let col: Color = tex.sample_sky(u, v);
            proof {
                assert(col == sky_pixel_spec(*tex, a as int, gw, gh, x as int, y as int));
            }
            fb.set_current_color(col);
            let ghost prev = *fb;
            fb.set_pixel(x, y);
            proof {
                assert forall|qx: int, qy: int| 0 <= qx < gw && 0 <= qy < gh implies fb.pixel(
                    qx,
                    qy,
                ) == (if qy < y || (qy == y && qx < x + 1) {
                    sky_pixel_spec(*tex, a as int, gw, gh, qx, qy)
                } else {
                    old(fb).pixel(qx, qy)
                }) by {
                    if prev.pix_in_bounds(x as int, y as int) {
                        crate::framebuffer::lemma_row_major_in_range(
                            qx,
                            qy,
                            prev.width as int,
                            prev.height as int,
                        );
                        crate::framebuffer::lemma_row_major_in_range(
                            x as int,
                            y as int,
                            prev.width as int,
                            prev.height as int,
                        );
                        if qy * (prev.width as int) + qx == (y as int) * (prev.width as int) + (
                        x as int) {
                            crate::framebuffer::lemma_row_major_injective(
                                qx,
                                qy,
                                x as int,
                                y as int,
                                prev.width as int,
                            );
                            assert(fb.pixel(qx, qy) == col);
                        } else {
                            assert(fb.pixel(qx, qy) == prev.pixel(qx, qy));
                            assert(prev.pixel(qx, qy) == entry.pixel(qx, qy));
                            assert(!(qx == x && qy == y));
                        }
                    } else {
                        assert(fb.pixels() == prev.pixels());
                        assert(fb.pixel(qx, qy) == prev.pixel(qx, qy));
                        assert(prev.pixel(qx, qy) == entry.pixel(qx, qy));
                        assert(!(qx == x && qy == y));
                    }
                }
            }
            x = x + 1;
        }
        y = y + 1;
    }
}

/// The floor pass: every second row of the lower half gets a row distance by
/// similar-triangles projection; the floor-plane coordinate is interpolated
/// across the row between the frustum-edge directions, sampled from the
/// tileable ground texture, lit by the flashlight (or ambient beyond its
/// range), and duplicated into the following row.
#[verifier::loop_isolation(false)]
#[verifier::rlimit(100)]
fn render_floor(
    fb: &mut Framebuffer,
    tex: &TextureManager,
    player: &Player,
    block_size: usize,
)
    requires
        old(fb).wf(),
        tex.wf(),
        1 <= block_size <= BLOCK_LIMIT,
        -POS_LIMIT <= player.pos.x <= POS_LIMIT,
        -POS_LIMIT <= player.pos.y <= POS_LIMIT,
        -PI_FX <= player.a <= PI_FX,
        0 < player.fov <= PI_FX,
    ensures
        frame_shape_kept(*old(fb), *final(fb)),
        forall|qx: int, qy: int|
            0 <= qx < old(fb).width && 0 <= qy < old(fb).height && qy <= old(fb).height as int / 2
                ==> final(fb).pixel(qx, qy) == old(fb).pixel(qx, qy),
{
    let height: i64 = fb.height as i64;
    let width: u32 = fb.width;
    if width == 0 {
        return ;
    }
    let num_rays: i64 = width as i64;
    let half_h: i64 = ((height as u64) / 2) as i64;
    let fov2: i64 = ((player.fov as u64) / 2) as i64;
    let la: i64 = player.a - fov2;
    let ra: i64 = player.a + fov2;
    let dlx: i64 = cos_fx(la);
    let dly: i64 = sin_fx(norm_angle(la));
    let drx: i64 = cos_fx(ra);
    let dry: i64 = sin_fx(norm_angle(ra));
    let px: i64 = floor_div(player.pos.x, block_size as i64);
    let py: i64 = floor_div(player.pos.y, block_size as i64);
    let block_fx: i64 = (block_size as i64) * FX_ONE;
    let flash_max: i64 = FLASH_RANGE_CELLS * block_fx;

    let mut sy: i64 = half_h;
    while sy < height
        invariant
            half_h <= sy <= height + 1,
            frame_shape_kept(*old(fb), *fb),
            forall|qx: int, qy: int|
                0 <= qx < old(fb).width && 0 <= qy < old(fb).height && qy <= old(
                    fb,
                ).height as int / 2 ==> fb.pixel(qx, qy) == old(fb).pixel(qx, qy),
        decreases height + 1 - sy,
    {
        let p: i64 = sy - half_h;
        if p >= 1 {
            let row_dist: i64 = (((height as u64) * (FX_HALF as u64)) / (p as u64)) as i64;
            proof {
                lemma_nonneg_div_matches((height as int) * (FX_HALF as int), p as int);
                assert((height as int) * (FX_HALF as int) <= 0x2000_0000_0000) by (nonlinear_arith)
                    requires
                        0 <= height <= 16384,
                ;
            }
            let shade_row: i64 = row_shade(row_dist);
            proof {
                lemma_fx_mul_double_bound(row_dist as int, (drx - dlx) as int);
                lemma_fx_mul_double_bound(row_dist as int, (dry - dly) as int);
                lemma_fx_mul_unit_bound(row_dist as int, dlx as int);
                lemma_fx_mul_unit_bound(row_dist as int, dly as int);
            }
            let tdx: i64 = fx_mul(row_dist, drx - dlx);
            let tdy: i64 = fx_mul(row_dist, dry - dly);
            let step_x: i64 = floor_div(tdx, num_rays);
            let step_y: i64 = floor_div(tdy, num_rays);
            let mut floor_x: i64 = px + fx_mul(row_dist, dlx);
            let mut floor_y: i64 = py + fx_mul(row_dist, dly);
            proof {
                assert(0 <= (row_dist as int) * (block_size as int) <= 0x2000_0000_0000 * (
                BLOCK_LIMIT as int)) by (nonlinear_arith)
                    requires
                        0 <= row_dist <= 0x2000_0000_0000,
                        1 <= block_size <= BLOCK_LIMIT,
                ;
            }
            let floor_far: bool = row_dist * (block_size as i64) > flash_max;
            let mut sx: u32 = 0;
            while sx < width
                invariant
                    sx <= width,
                    half_h < sy < height,
                    frame_shape_kept(*old(fb), *fb),
                    forall|qx: int, qy: int|
                        0 <= qx < old(fb).width && 0 <= qy < old(fb).height && qy <= old(
                            fb,
                        ).height as int / 2 ==> fb.pixel(qx, qy) == old(fb).pixel(qx, qy),
                    sabs(floor_x as int) <= 0x8000_0000 + sx * 0x4000_0000,
                    sabs(floor_y as int) <= 0x8000_0000 + sx * 0x4000_0000,
                    sabs(step_x as int) <= 0x4000_0000,
                    sabs(step_y as int) <= 0x4000_0000,
                decreases width - sx,
            {
                proof {
                    assert(sabs(floor_x as int) <= 0x8000_0000 + 0x4000 * 0x4000_0000 && sabs(
                        floor_y as int,
                    ) <= 0x8000_0000 + 0x4000 * 0x4000_0000) by (nonlinear_arith)
                        requires
                            sabs(floor_x as int) <= 0x8000_0000 + sx * 0x4000_0000,
                            sabs(floor_y as int) <= 0x8000_0000 + sx * 0x4000_0000,
                            0 <= sx <= 0x4000,
                    ;
                }
                let col: Color = tex.sample_ground(floor_x, floor_y);
                let shade: i64;
                proof {
                    lemma_fx_mul_unit_bound(shade_row as int, AMBIENT_FX as int);
                    lemma_nonneg_div_matches((shade_row as int) * (AMBIENT_FX as int), FX_ONE as int);
                }
                if floor_far {
                    shade = fx_mul(shade_row, AMBIENT_FX);
                } else {
                    proof {
                        assert(sabs(floor_x as int * (block_size as int)) <= 0x1_0100_0000_0000 * (
                        BLOCK_LIMIT as int) && sabs(floor_y as int * (block_size as int))
                            <= 0x1_0100_0000_0000 * (BLOCK_LIMIT as int)) by (nonlinear_arith)
                            requires
                                sabs(floor_x as int) <= 0x1_0100_0000_0000,
                                sabs(floor_y as int) <= 0x1_0100_0000_0000,
                                1 <= block_size <= BLOCK_LIMIT,
                        ;
                    }
                    let world_x: i64 = floor_x * (block_size as i64);
                    let world_y: i64 = floor_y * (block_size as i64);
                    let dxw: i64 = world_x - player.pos.x;
                    let dyw: i64 = world_y - player.pos.y;
                    let axw: i64 = if dxw < 0 {
                        -dxw
                    } else {
                        dxw
                    };
                    let ayw: i64 = if dyw < 0 {
                        -dyw
                    } else {
                        dyw
                    };
                    if axw > flash_max || ayw > flash_max {
                        shade = fx_mul(shade_row, AMBIENT_FX);
                    } else {
                        proof {
                            assert((axw as int) * (axw as int) + (ayw as int) * (ayw as int) <= 2 * (
                            0x8000_0000 * 0x8000_0000)) by (nonlinear_arith)
                                requires
                                    0 <= axw <= 0x8000_0000,
                                    0 <= ayw <= 0x8000_0000,
                            ;
                        }
                        let d2: u64 = (axw as u64) * (axw as u64) + (ayw as u64) * (ayw as u64);
                        let dist_w: i64 = isqrt64(d2) as i64;
                        let ang_w: i64 = atan2_fx(dyw, dxw);
                        let ang_n: i64 = norm_angle(ang_w - player.a);
                        let af: i64 = ang_factor(ang_n);
                        let light: i64 = flashlight(af, dist_w, flash_max);
                        proof {
                            lemma_fx_mul_unit_bound(shade_row as int, light as int);
                            lemma_nonneg_div_matches(
                                (shade_row as int) * (light as int),
                                FX_ONE as int,
                            );
                        }
                        shade = fx_mul(shade_row, light);
                    }
                }
                let c2: Color = shade_color(col, shade);
                let ghost prev = *fb;
                fb.set_pixel_color(sx, sy as u32, c2);
                proof {
                    assert forall|qx: int, qy: int|
                        0 <= qx < old(fb).width && 0 <= qy < old(fb).height && qy <= old(
                            fb,
                        ).height as int / 2 implies fb.pixel(qx, qy) == old(fb).pixel(qx, qy) by {
                        if prev.pix_in_bounds(sx as int, sy as int) {
                            crate::framebuffer::lemma_row_major_in_range(
                                qx,
                                qy,
                                prev.width as int,
                                prev.height as int,
                            );
                            crate::framebuffer::lemma_row_major_in_range(
                                sx as int,
                                sy as int,
                                prev.width as int,
                                prev.height as int,
                            );
                            if qy * (prev.width as int) + qx == (sy as int) * (prev.width as int)
                                + (sx as int) {
                                crate::framebuffer::lemma_row_major_injective(
                                    qx,
                                    qy,
                                    sx as int,
                                    sy as int,
                                    prev.width as int,
                                );
                                assert(false);
                            }
                            assert(fb.pixel(qx, qy) == prev.pixel(qx, qy));
                        } else {
                            assert(fb.pixels() == prev.pixels());
                            assert(fb.pixel(qx, qy) == prev.pixel(qx, qy));
                        }
                    }
                }
                if sy + 1 < height {
                    let ghost prev2 = *fb;
                    fb.set_pixel_color(sx, (sy + 1) as u32, c2);
                    proof {
                        assert forall|qx: int, qy: int|
                            0 <= qx < old(fb).width && 0 <= qy < old(fb).height && qy <= old(
                                fb,
                            ).height as int / 2 implies fb.pixel(qx, qy) == old(fb).pixel(
                            qx,
                            qy,
                        ) by {
                            if prev2.pix_in_bounds(sx as int, sy + 1) {
                                crate::framebuffer::lemma_row_major_in_range(
                                    qx,
                                    qy,
                                    prev2.width as int,
                                    prev2.height as int,
                                );
                                crate::framebuffer::lemma_row_major_in_range(
                                    sx as int,
                                    sy + 1,
                                    prev2.width as int,
                                    prev2.height as int,
                                );
                                if qy * (prev2.width as int) + qx == (sy + 1) * (
                                prev2.width as int) + (sx as int) {
                                    crate::framebuffer::lemma_row_major_injective(
                                        qx,
                                        qy,
                                        sx as int,
                                        sy + 1,
                                        prev2.width as int,
                                    );
                                    assert(false);
                                }
                                assert(fb.pixel(qx, qy) == prev2.pixel(qx, qy));
                            } else {
                                assert(fb.pixels() == prev2.pixels());
                                assert(fb.pixel(qx, qy) == prev2.pixel(qx, qy));
                            }
                        }
                    }
                }
                proof {
                    assert((sx + 1) * 0x4000_0000 == sx * 0x4000_0000 + 0x4000_0000) by (nonlinear_arith);
                }
                floor_x = floor_x + step_x;
                floor_y = floor_y + step_y;
                sx = sx + 1;
            }
        }
        sy = sy + 2;
    }
}

/// What the wall pass does to pixel `(sx, y)`: the shaded texel of the hit
/// column's strip, or nothing — because the ray missed or the row is
/// outside the clamped strip.
pub open spec fn wall_column_pixel_spec(
    maze: Maze,
    p: Player,
    tex: TextureManager,
    block: int,
    sx: int,
    width: int,
    height: int,
    y: int,
) -> Option<Color> {
    let inter = column_cast_spec(maze, p, block, sx, width);
    let proj = proj_plane_spec(width, p.fov as int);
    if inter.impact == EMPTY_CELL || inter.distance <= 0 {
        None
    } else if !(wall_top_spec(height, block, proj, inter.distance as int) <= y <= wall_bottom_spec(
        height,
        block,
        proj,
        inter.distance as int,
    )) {
        None
    } else {
        let ang = column_angle_spec(p.a as int, p.fov as int, sx, width);
        Some(
            wall_row_pixel_spec(
                tex,
                inter.impact,
                inter.wall_x as int,
                inter.side as int,
                ray_dir_x_spec(ang),
                ray_dir_y_spec(ang),
                fx_mul_spec(column_offset_spec(sx, width), p.fov as int / 2),
                block,
                proj,
                inter.distance as int,
                height,
                y - wall_top_spec(height, block, proj, inter.distance as int),
            ),
        )
    }
}

/// The wall pass: one ray per screen column; a hit writes its perpendicular
/// distance to the depth buffer and draws the textured, shaded wall strip; a
/// miss writes the `FX_INF` sentinel and draws nothing.
#[verifier::loop_isolation(false)]
#[verifier::rlimit(80)]
fn render_walls(
    fb: &mut Framebuffer,
    maze: &Maze,
    block_size: usize,
    player: &Player,
    tex: &TextureManager,
    depth_buffer: &mut Vec<i64>,
)
    requires
        render_inputs_ok(*old(fb), *maze, block_size as int, *player),
        tex.wf(),
        old(depth_buffer).len() == old(fb).width,
    ensures
        frame_shape_kept(*old(fb), *final(fb)),
        final(depth_buffer).len() == old(depth_buffer).len(),
        forall|k: int|
            0 <= k < final(depth_buffer).len() ==> final(depth_buffer)@[k] == wall_depth_spec(
                *maze,
                *player,
                block_size as int,
                k,
                old(fb).width as int,
            ),
        forall|x: int, y: int|
            0 <= x < old(fb).width && 0 <= y < old(fb).height ==> final(fb).pixel(x, y) == (
            match wall_column_pixel_spec(
                *maze,
                *player,
                *tex,
                block_size as int,
                x,
                old(fb).width as int,
                old(fb).height as int,
                y,
            ) {
                Some(c) => c,
                None => old(fb).pixel(x, y),
            }),
        forall|x: int, y: int|
            0 <= x < old(fb).width && 0 <= y < old(fb).height && column_missed_spec(
                *maze,
                *player,
                block_size as int,
                x,
                old(fb).width as int,
            ) ==> final(fb).pixel(x, y) == old(fb).pixel(x, y),
{
    let ghost gw = old(fb).width as int;
    let ghost gh = old(fb).height as int;
    let width: u32 = fb.width;
    let proj: i64 = proj_plane(width, player.fov);
    let fov2: i64 = ((player.fov as u64) / 2) as i64;

    let mut sx: u32 = 0;
    while sx < width
        invariant
            sx <= width,
            frame_shape_kept(*old(fb), *fb),
            depth_buffer.len() == width,
            forall|k: int|
                0 <= k < sx ==> depth_buffer@[k] == wall_depth_spec(
                    *maze,
                    *player,
                    block_size as int,
                    k,
                    width as int,
                ),
            forall|x: int, y: int|
                0 <= x < gw && 0 <= y < gh ==> fb.pixel(x, y) == (if x < sx {
                    match wall_column_pixel_spec(
                        *maze,
                        *player,
                        *tex,
                        block_size as int,
                        x,
                        gw,
                        gh,
                        y,
                    ) {
                        Some(c) => c,
                        None => old(fb).pixel(x, y),
                    }
                } else {
                    old(fb).pixel(x, y)
                }),
        decreases width - sx,
    {
        let ghost before = *fb;
        let cam: i64 = ((2 * (sx as u64) * (FX_ONE as u64)) / (width as u64)) as i64 - FX_ONE;
        assert(cam == column_offset_spec(sx as int, width as int));
        assert(-FX_ONE <= cam < FX_ONE) by {
            lemma_nonneg_div_matches(2 * (sx as int) * (FX_ONE as int), width as int);
            assert(2 * (sx as int) * (FX_ONE as int) / (width as int) < 2 * FX_ONE) by (nonlinear_arith)
                requires
                    0 <= sx < width,
            ;
        }
        proof {
            lemma_fx_mul_unit_bound(cam as int, fov2 as int);
        }
        let ang_off: i64 = fx_mul(cam, fov2);
        let angle: i64 = player.a + ang_off;
        let dir_x: i64 = cos_fx(angle);
        let n_ang: i64 = norm_angle(angle);
        let dir_y: i64 = sin_fx(n_ang);
        let inter: Intersect = cast_ray_dir(
            maze,
            player.pos.x,
            player.pos.y,
            dir_x,
            dir_y,
            block_size,
        );
        proof {
            assert(angle == column_angle_spec(
                player.a as int,
                player.fov as int,
                sx as int,
                width as int,
            ));
            assert(inter == column_cast_spec(
                *maze,
                *player,
                block_size as int,
                sx as int,
                width as int,
            ));
        }
        if inter.impact == EMPTY_CELL || inter.distance <= 0 {
            depth_buffer.set(sx as usize, FX_INF);
        } else {
            proof {
                crate::caster::lemma_cast_hit_props(
                    *maze,
                    player.pos.x as int,
                    player.pos.y as int,
                    dir_x as int,
                    dir_y as int,
                    block_size as int,
                );
            }
            depth_buffer.set(sx as usize, inter.distance);
            draw_wall_column(fb, tex, sx, inter, dir_x, dir_y, ang_off, block_size, proj);
        }
        proof {
            assert forall|x: int, y: int| 0 <= x < gw && 0 <= y < gh implies fb.pixel(x, y) == (
            if x < sx + 1 {
                match wall_column_pixel_spec(
                    *maze,
                    *player,
                    *tex,
                    block_size as int,
                    x,
                    gw,
                    gh,
                    y,
                ) {
                    Some(c) => c,
                    None => old(fb).pixel(x, y),
                }
            } else {
                old(fb).pixel(x, y)
            }) by {
                if x != sx {
                    assert(fb.pixel(x, y) == before.pixel(x, y));
                }
            }
        }
        sx = sx + 1;
    }
    proof {
        assert forall|x: int, y: int|
            0 <= x < gw && 0 <= y < gh && column_missed_spec(
                *maze,
                *player,
                block_size as int,
                x,
                gw,
            ) implies fb.pixel(x, y) == old(fb).pixel(x, y) by {
            assert(wall_column_pixel_spec(
                *maze,
                *player,
                *tex,
                block_size as int,
                x,
                gw,
                gh,
                y,
            ) is None);
        }
    }
}


/// One frame of the scene: sky, floor, then walls, filling the color buffer
/// and the per-column depth buffer in that order. The sky pass touches only
/// rows above the horizon and the floor pass only rows below it (the floor
/// row stride never changes which rows get which treatment), so a pixel of
/// the upper half outside every wall strip shows exactly its sky sample.
pub fn render_world(
    fb: &mut Framebuffer,
    maze: &Maze,
    block_size: usize,
    player: &Player,
    tex: &TextureManager,
    depth_buffer: &mut Vec<i64>,
)
    requires
        render_inputs_ok(*old(fb), *maze, block_size as int, *player),
        tex.wf(),
        old(depth_buffer).len() == old(fb).width,
    ensures
        frame_shape_kept(*old(fb), *final(fb)),
        final(depth_buffer).len() == old(depth_buffer).len(),
        forall|k: int|
            0 <= k < final(depth_buffer).len() ==> final(depth_buffer)@[k] == wall_depth_spec(
                *maze,
                *player,
                block_size as int,
                k,
                old(fb).width as int,
            ),
        forall|x: int, y: int|
            0 <= x < old(fb).width && 0 <= y < old(fb).height && wall_column_pixel_spec(
                *maze,
                *player,
                *tex,
                block_size as int,
                x,
                old(fb).width as int,
                old(fb).height as int,
                y,
            ) is Some ==> final(fb).pixel(x, y) == wall_column_pixel_spec(
                *maze,
                *player,
                *tex,
                block_size as int,
                x,
                old(fb).width as int,
                old(fb).height as int,
                y,
            )->Some_0,
        forall|x: int, y: int|
            0 <= x < old(fb).width && 0 <= y < old(fb).height as int / 2
                && wall_column_pixel_spec(
                *maze,
                *player,
                *tex,
                block_size as int,
                x,
                old(fb).width as int,
                old(fb).height as int,
                y,
            ) is None ==> final(fb).pixel(x, y) == sky_pixel_spec(
                *tex,
                player.a as int,
                old(fb).width as int,
                old(fb).height as int,
                x,
                y,
            ),
{
    render_sky(fb, tex, player.a);
    render_floor(fb, tex, player, block_size);
    render_walls(fb, maze, block_size, player, tex, depth_buffer);
}

/// The minimap color of a cell tag.
pub open spec fn cell_to_color_spec(cell: char) -> Color {
    if cell == '+' {
        Color { r: 230, g: 230, b: 250, a: 255 }
    } else if cell == '-' {
        Color { r: 173, g: 216, b: 230, a: 255 }
    } else if cell == '|' {
        Color { r: 255, g: 255, b: 255, a: 255 }
    } else if cell == 'g' {
        Color { r: 0, g: 228, b: 48, a: 255 }
    } else {
        Color { r: 255, g: 255, b: 255, a: 255 }
    }
}

/// The minimap color of a cell tag.
pub fn cell_to_color(cell: char) -> (c: Color)
    ensures
        c == cell_to_color_spec(cell),
{
    if cell == '+' {
        Color { r: 230, g: 230, b: 250, a: 255 }
    } else if cell == '-' {
        Color { r: 173, g: 216, b: 230, a: 255 }
    } else if cell == '|' {
        Color { r: 255, g: 255, b: 255, a: 255 }
    } else if cell == 'g' {
        Color { r: 0, g: 228, b: 48, a: 255 }
    } else {
        Color { r: 255, g: 255, b: 255, a: 255 }
    }
}

/// Fill one minimap cell block with the cell's color; an empty cell draws
/// nothing. Exactly the in-range pixels of the block square are written.
#[verifier::loop_isolation(false)]
pub fn draw_cell(fb: &mut Framebuffer, xo: usize, yo: usize, block_size: usize, cell: char)
    requires
        old(fb).wf(),
        xo + block_size <= 0x4100_0000,
        yo + block_size <= 0x4100_0000,
    ensures
        frame_shape_kept(*old(fb), *final(fb)),
        final(fb).current_spec() == (if cell != ' ' {
            cell_to_color_spec(cell)
        } else {
            old(fb).current_spec()
        }),
        forall|qx: int, qy: int|
            0 <= qx < old(fb).width && 0 <= qy < old(fb).height ==> final(fb).pixel(qx, qy) == (
            if cell != ' ' && xo <= qx < xo + block_size && yo <= qy < yo + block_size {
                cell_to_color_spec(cell)
            } else {
                old(fb).pixel(qx, qy)
            }),
{
    if cell == ' ' {
        return ;
    }
    let color: Color = cell_to_color(cell);
    fb.set_current_color(color);
    let mut x: usize = xo;
    while x < xo + block_size
        invariant
            xo <= x <= xo + block_size,
            frame_shape_kept(*old(fb), *fb),
            forall|qx: int, qy: int|
                0 <= qx < old(fb).width && 0 <= qy < old(fb).height ==> fb.pixel(qx, qy) == (
                if xo <= qx < x && yo <= qy < yo + block_size {
                    cell_to_color_spec(cell)
                } else {
                    old(fb).pixel(qx, qy)
                }),
            fb.current_spec() == color,
        decreases xo + block_size - x,
    {
        let mut y: usize = yo;
        while y < yo + block_size
            invariant
                xo <= x < xo + block_size,
                yo <= y <= yo + block_size,
                frame_shape_kept(*old(fb), *fb),
                forall|qx: int, qy: int|
                    0 <= qx < old(fb).width && 0 <= qy < old(fb).height ==> fb.pixel(qx, qy) == (
                    if (xo <= qx < x && yo <= qy < yo + block_size) || (qx == x && yo <= qy < y) {
                        cell_to_color_spec(cell)
                    } else {
                        old(fb).pixel(qx, qy)
                    }),
                fb.current_spec() == color,
            decreases yo + block_size - y,
        {
            let ghost prev = *fb;
            fb.set_pixel(x as u32, y as u32);
            proof {
                assert forall|qx: int, qy: int|
                    0 <= qx < old(fb).width && 0 <= qy < old(fb).height implies fb.pixel(qx, qy)
                    == (if (xo <= qx < x && yo <= qy < yo + block_size) || (qx == x && yo <= qy
                    < y + 1) {
                    cell_to_color_spec(cell)
                } else {
                    old(fb).pixel(qx, qy)
                }) by {
                    crate::framebuffer::lemma_row_major_in_range(
                        qx,
                        qy,
                        prev.width as int,
                        prev.height as int,
                    );
                    if prev.pix_in_bounds(x as int, y as int) {
                        crate::framebuffer::lemma_row_major_in_range(
                            x as int,
                            y as int,
                            prev.width as int,
                            prev.height as int,
                        );
                        if qy * (prev.width as int) + qx == (y as int) * (prev.width as int) + (
                        x as int) {
                            crate::framebuffer::lemma_row_major_injective(
                                qx,
                                qy,
                                x as int,
                                y as int,
                                prev.width as int,
                            );
                            assert(qx == x && qy == y);
                            assert(fb.pixels() == prev.pixels().update(
                                prev.idx(x as int, y as int),
                                prev.current_spec(),
                            ));
                            assert(fb.pixel(qx, qy) == prev.current_spec());
                            assert(prev.current_spec() == cell_to_color_spec(cell));
                        } else {
                            assert(fb.pixel(qx, qy) == prev.pixel(qx, qy));
                        }
                    } else {
                        assert(fb.pixels() == prev.pixels());
                        assert(!(qx == x && qy == y));
                        assert(fb.pixel(qx, qy) == prev.pixel(qx, qy));
                    }
                }
            }
            y = y + 1;
        }
        x = x + 1;
    }
}

/// Draw the top-down minimap: every non-empty cell as a colored block, the
/// player as a small square with a heading line.
#[verifier::loop_isolation(false)]
pub fn render_minimap(
    fb: &mut Framebuffer,
    maze: &Maze,
    block_size: usize,
    player: &Player,
    origin_x: u32,
    origin_y: u32,
    cell_px: u32,
)
    requires
        old(fb).wf(),
        maze.wf(),
        maze.spec_height() <= MAZE_DIM_LIMIT,
        maze.spec_width() <= MAZE_DIM_LIMIT,
        1 <= block_size <= BLOCK_LIMIT,
        -POS_LIMIT <= player.pos.x <= POS_LIMIT,
        -POS_LIMIT <= player.pos.y <= POS_LIMIT,
        -PI_FX <= player.a <= PI_FX,
        origin_x <= 0x4000_0000,
        origin_y <= 0x4000_0000,
        1 <= cell_px <= 256,
    ensures
        frame_shape_kept(*old(fb), *final(fb)),
{
    let h: usize = maze.height();
    let w: usize = maze.width();
    let mut row: usize = 0;
    while row < h
        invariant
            row <= h,
            frame_shape_kept(*old(fb), *fb),
        decreases h - row,
    {
        let mut col: usize = 0;
        while col < w
            invariant
                col <= w,
                frame_shape_kept(*old(fb), *fb),
            decreases w - col,
        {
            let cell: char = maze.at(col, row);
            if cell != ' ' {
                proof {
                    assert((col as int) * (cell_px as int) <= 0x8000 * 256 && (row as int) * (
                    cell_px as int) <= 0x8000 * 256) by (nonlinear_arith)
                        requires
                            0 <= col < 0x8000,
                            0 <= row < 0x8000,
                            cell_px <= 256,
                    ;
                }
                let bx: u64 = (origin_x as u64) + (col as u64) * (cell_px as u64);
                let by: u64 = (origin_y as u64) + (row as u64) * (cell_px as u64);
                draw_cell(fb, bx as usize, by as usize, cell_px as usize, cell);
            }
            col = col + 1;
        }
        row = row + 1;
    }

    let violet: Color = Color { r: 135, g: 60, b: 190, a: 255 };
    let yellow: Color = Color { r: 253, g: 249, b: 0, a: 255 };
    let gx: i64 = floor_div(player.pos.x, block_size as i64);
    let gy: i64 = floor_div(player.pos.y, block_size as i64);
    proof {
        assert(0 <= (0x4000_0000 as int) * 256 / (FX_ONE as int) <= 0x400_0000) by (nonlinear_arith);
        assert(gx >= 0 ==> (gx as int) * (cell_px as int) <= (0x4000_0000 as int) * 256) by (nonlinear_arith)
            requires
                gx <= 0x4000_0000,
                cell_px <= 256,
        ;
        assert(gy >= 0 ==> (gy as int) * (cell_px as int) <= (0x4000_0000 as int) * 256) by (nonlinear_arith)
            requires
                gy <= 0x4000_0000,
                cell_px <= 256,
        ;
        if gx >= 0 {
            lemma_nonneg_div_matches((gx as int) * (cell_px as int), FX_ONE as int);
            assert((gx as int) * (cell_px as int) / (FX_ONE as int) <= (0x4000_0000 as int) * 256 / (
            FX_ONE as int)) by (nonlinear_arith)
                requires
                    0 <= (gx as int) * (cell_px as int) <= (0x4000_0000 as int) * 256,
            ;
        }
        if gy >= 0 {
            lemma_nonneg_div_matches((gy as int) * (cell_px as int), FX_ONE as int);
            assert((gy as int) * (cell_px as int) / (FX_ONE as int) <= (0x4000_0000 as int) * 256 / (
            FX_ONE as int)) by (nonlinear_arith)
                requires
                    0 <= (gy as int) * (cell_px as int) <= (0x4000_0000 as int) * 256,
            ;
        }
    }
    let pxm: u32 = if gx < 0 {
        origin_x
    } else {
        origin_x + ((((gx as u64) * (cell_px as u64)) / (FX_ONE as u64)) as u32)
    };
    let pym: u32 = if gy < 0 {
        origin_y
    } else {
        origin_y + ((((gy as u64) * (cell_px as u64)) / (FX_ONE as u64)) as u32)
    };

    let mut dy: i64 = -5;
    while dy <= 5
        invariant
            -5 <= dy <= 6,
            frame_shape_kept(*old(fb), *fb),
            pxm <= 0x4400_0000,
            pym <= 0x4400_0000,
        decreases 6 - dy,
    {
        let mut dx: i64 = -5;
        while dx <= 5
            invariant
                -5 <= dx <= 6,
                frame_shape_kept(*old(fb), *fb),
            decreases 6 - dx,
        {
            let x: i64 = (pxm as i64) + dx;
            let y: i64 = (pym as i64) + dy;
            if x >= 0 && y >= 0 {
                fb.set_pixel_color(x as u32, y as u32, violet);
            }
            dx = dx + 1;
        }
        dy = dy + 1;
    }

    let ca: i64 = cos_fx(player.a);
    let sa: i64 = sin_fx(player.a);
    let mut i: i64 = 0;
    while i < 12
        invariant
            0 <= i <= 12,
            frame_shape_kept(*old(fb), *fb),
            pxm <= 0x4400_0000,
            pym <= 0x4400_0000,
        decreases 12 - i,
    {
        proof {
            assert(0 <= (sabs(ca as int)) * (i as int) <= 16 * FX_ONE) by (nonlinear_arith)
                requires
                    0 <= sabs(ca as int) <= FX_ONE,
                    0 <= i <= 12,
            ;
            assert(0 <= (sabs(sa as int)) * (i as int) <= 16 * FX_ONE) by (nonlinear_arith)
                requires
                    0 <= sabs(sa as int) <= FX_ONE,
                    0 <= i <= 12,
            ;
            lemma_nonneg_div_matches(sabs(ca as int) * (i as int), FX_ONE as int);
            lemma_nonneg_div_matches(sabs(sa as int) * (i as int), FX_ONE as int);
            assert(sabs(ca as int) * (i as int) / (FX_ONE as int) <= 16 * FX_ONE / (
            FX_ONE as int) && sabs(sa as int) * (i as int) / (FX_ONE as int) <= 16 * FX_ONE / (
            FX_ONE as int)) by (nonlinear_arith)
                requires
                    0 <= sabs(ca as int) * (i as int) <= 16 * FX_ONE,
                    0 <= sabs(sa as int) * (i as int) <= 16 * FX_ONE,
            ;
        }
        let cm: i64 = ((((if ca < 0 {
            -ca
        } else {
            ca
        }) as u64) * (i as u64)) / (FX_ONE as u64)) as i64;
        let sm: i64 = ((((if sa < 0 {
            -sa
        } else {
            sa
        }) as u64) * (i as u64)) / (FX_ONE as u64)) as i64;
        let x: i64 = (pxm as i64) + (if ca < 0 {
            -cm
        } else {
            cm
        });
        let y: i64 = (pym as i64) + (if sa < 0 {
            -sm
        } else {
            sm
        });
        if x >= 0 && y >= 0 {
            fb.set_pixel_color(x as u32, y as u32, yellow);
        }
        i = i + 1;
    }
    fb.set_pixel_color(pxm, pym, violet);
    if pxm < 0xFFFF_FFFF {
        fb.set_pixel_color(pxm + 1, pym, violet);
    }
    if pym < 0xFFFF_FFFF {
        fb.set_pixel_color(pxm, pym + 1, violet);
    }
}

} // verus!
