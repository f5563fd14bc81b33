//! The sprite projector: billboard entities sorted farthest-first
//! (painter's algorithm), culled against the field of view, the near plane
//! and the depth buffer, then drawn column by column with transparent-texel
//! skipping and distance attenuation. Sprites never write the depth buffer;
//! a column whose wall is nearer than the sprite is never touched.

use vstd::prelude::*;
use crate::fixed::{
    FX_ONE, FX_HALF, FX_INF, sabs, fx_mul_spec, fx_div_spec, sat_add_spec, clamp_spec,
    muldiv_sat_spec, sqrt_of, fx_mul, fx_div, sat_add, muldiv_sat, clamp_fx, isqrt64,
    lemma_sqrt_unique, lemma_fx_mul_unit_bound, lemma_nonneg_div_matches,
};
use crate::caster::{POS_LIMIT, BLOCK_LIMIT};
use crate::framebuffer::{Color, Framebuffer, lemma_row_major_injective, lemma_row_major_in_range};
use crate::textures::{TextureManager, lookup, sample_spec};
use crate::trig::{PI_FX, norm_angle_spec, cos_fx_spec, atan2_spec, norm_angle, cos_fx, atan2_fx};
use crate::render::{frame_shape_kept, shade_color_spec, shade_color};
use crate::player::{Player, Vec2Fx};

verus! {

/// Texel color treated as fully transparent in sprite textures.
pub open spec fn transparent_color_spec() -> Color {
    Color { r: 152, g: 0, b: 136, a: 255 }
}

/// Texel color treated as fully transparent in sprite textures.
pub fn transparent_color() -> (c: Color)
    ensures
        c == transparent_color_spec(),
{
    Color { r: 152, g: 0, b: 136, a: 255 }
}

/// Base height factor of a sprite against a wall block (0.5).
pub const ENEMY_BASE_SCALE_FX: i64 = 32768;

/// Per-unit darkening of sprites with distance (0.1).
pub const SPRITE_SHADE_K_FX: i64 = 6554;

/// Lower clamp of the sprite shade (0.3).
pub const SPRITE_SHADE_MIN_FX: i64 = 19661;

/// Angular margin added to the half field of view before culling (0.2 rad),
/// avoiding popping at the FOV edge.
pub const FOV_MARGIN_FX: i64 = 13107;

/// Near clip distance for sprites (0.5 world units).
pub const NEAR_CLIP_FX: i64 = 32768;

/// Safety factor on the sampled wall depth in the coarse cull (0.98),
/// tolerating projection rounding.
pub const DEPTH_MARGIN_FX: i64 = 64225;

/// Greatest accepted sprite scale factor (16x).
pub const SPRITE_SCALE_LIMIT_FX: i64 = 0x10_0000;

/// A billboard entity: world position, texture tag, and a size factor
/// applied on top of `ENEMY_BASE_SCALE_FX`.
#[derive(Clone, Copy, PartialEq, Eq, Structural, Debug)]
pub struct Enemy {
    pub pos: Vec2Fx,
    pub id: char,
    pub scale: i64,
}

impl Enemy {
    pub fn new(x: i64, y: i64, id: char) -> (e: Enemy)
        ensures
            e == (Enemy { pos: Vec2Fx { x, y }, id, scale: FX_ONE }),
    {
        Enemy { pos: Vec2Fx { x, y }, id, scale: FX_ONE }
    }

    pub fn with_scale(x: i64, y: i64, id: char, scale: i64) -> (e: Enemy)
        ensures
            e == (Enemy { pos: Vec2Fx { x, y }, id, scale }),
    {
        Enemy { pos: Vec2Fx { x, y }, id, scale }
    }
}

/// Squared world distance from the camera to a sprite.
pub open spec fn dist_key_spec(p: Player, e: Enemy) -> int {
    let dx = e.pos.x - p.pos.x;
    let dy = e.pos.y - p.pos.y;
    dx * dx + dy * dy
}

/// World distance from the camera to a sprite.
pub open spec fn sprite_dist_spec(p: Player, e: Enemy) -> int {
    sqrt_of(dist_key_spec(p, e))
}

/// Angle from the camera heading to the sprite, normalized to
/// `(-PI_FX, PI_FX]`.
pub open spec fn sprite_angle_diff_spec(p: Player, e: Enemy) -> int {
    norm_angle_spec(atan2_spec(e.pos.y - p.pos.y, e.pos.x - p.pos.x) - p.a)
}

/// Fisheye-corrected sprite distance.
pub open spec fn sprite_dist_corr_spec(p: Player, e: Enemy) -> int {
    fx_mul_spec(sprite_dist_spec(p, e), cos_fx_spec(sprite_angle_diff_spec(p, e)))
}

/// The sprite lies outside the field of view plus the popping margin.
pub open spec fn sprite_fov_culled_spec(p: Player, e: Enemy) -> bool {
    sabs(sprite_angle_diff_spec(p, e)) > p.fov / 2 + FOV_MARGIN_FX
}

/// The sprite is at or behind the near clip plane.
pub open spec fn sprite_near_culled_spec(p: Player, e: Enemy) -> bool {
    sprite_dist_corr_spec(p, e) <= NEAR_CLIP_FX
}

/// The wall in screen column `x` is nearer than the sprite: the sprite may
/// not write any pixel of that column.
pub open spec fn column_occluded_spec(p: Player, e: Enemy, depth: Seq<i64>, x: int) -> bool {
    sprite_dist_corr_spec(p, e) > depth[x]
}

/// Descending order by distance from the camera (painter's algorithm).
pub open spec fn sorted_desc(p: Player, s: Seq<Enemy>) -> bool {
    forall|i: int, j: int|
        0 <= i < j < s.len() ==> dist_key_spec(p, #[trigger] s[i]) >= dist_key_spec(
            p,
            #[trigger] s[j],
        )
}

/// Every sprite's position and scale are within the accepted ranges.
pub open spec fn enemies_wf(s: Seq<Enemy>) -> bool {
    forall|i: int|
        0 <= i < s.len() ==> {
            let e = #[trigger] s[i];
            &&& -POS_LIMIT <= e.pos.x <= POS_LIMIT
            &&& -POS_LIMIT <= e.pos.y <= POS_LIMIT
            &&& 0 <= e.scale <= SPRITE_SCALE_LIMIT_FX
        }
}

/// Squared camera distance of a sprite, as a sortable key.
fn dist_key(p: &Player, e: &Enemy) -> (k: u64)
    requires
        -POS_LIMIT <= p.pos.x <= POS_LIMIT,
        -POS_LIMIT <= p.pos.y <= POS_LIMIT,
        -POS_LIMIT <= e.pos.x <= POS_LIMIT,
        -POS_LIMIT <= e.pos.y <= POS_LIMIT,
    ensures
        k == dist_key_spec(*p, *e),
{
    let dx: i64 = e.pos.x - p.pos.x;
    let dy: i64 = e.pos.y - p.pos.y;
    let ax: u64 = if dx < 0 {
        (-dx) as u64
    } else {
        dx as u64
    };
    let ay: u64 = if dy < 0 {
        (-dy) as u64
    } else {
        dy as u64
    };
    proof {
        assert(ax * ax + ay * ay <= 2 * ((2 * POS_LIMIT as int) * (2
            * POS_LIMIT as int))) by (nonlinear_arith)
            requires
                0 <= ax <= 2 * POS_LIMIT,
                0 <= ay <= 2 * POS_LIMIT,
        ;
        assert((ax as int) * (ax as int) == (dx as int) * (dx as int) && (ay as int) * (ay as int)
            == (dy as int) * (dy as int)) by (nonlinear_arith)
            requires
                ax == sabs(dx as int),
                ay == sabs(dy as int),
        ;
    }
    ax * ax + ay * ay
}

/// Sort the sprites by descending camera distance, keeping exactly the same
/// sprites (as a multiset).
#[verifier::loop_isolation(false)]
pub fn sort_by_dist(p: &Player, enemies: &mut Vec<Enemy>)
    requires
        -POS_LIMIT <= p.pos.x <= POS_LIMIT,
        -POS_LIMIT <= p.pos.y <= POS_LIMIT,
        enemies_wf(old(enemies)@),
    ensures
        final(enemies)@.to_multiset() == old(enemies)@.to_multiset(),
        final(enemies)@.len() == old(enemies)@.len(),
        sorted_desc(*p, final(enemies)@),
        enemies_wf(final(enemies)@),
        sorted_desc(*p, old(enemies)@) ==> final(enemies)@ == old(enemies)@,
{
    let n: usize = enemies.len();
    if n == 0 {
        return ;
    }
    let mut i: usize = 1;
    while i < n
        invariant
            1 <= i <= n,
            enemies@.len() == n,
            enemies@.to_multiset() == old(enemies)@.to_multiset(),
            enemies_wf(enemies@),
            sorted_desc(*p, enemies@.subrange(0, i as int)),
            sorted_desc(*p, old(enemies)@) ==> enemies@ == old(enemies)@,
        decreases n - i,
    {
        let e: Enemy = enemies[i];
        let ke: u64 = dist_key(p, &e);
        let mut j: usize = i;
        let mut searching: bool = true;
        while searching && j > 0
            invariant
                0 <= j <= i < n,
                e == enemies@[i as int],
                ke == dist_key_spec(*p, e),
                !searching ==> 1 <= j && dist_key_spec(*p, enemies@[j - 1]) >= dist_key_spec(
                    *p,
                    e,
                ),
                sorted_desc(*p, old(enemies)@) ==> enemies@ == old(enemies)@ && j == i,
                forall|b: int|
                    j <= b < i ==> dist_key_spec(*p, #[trigger] enemies@[b]) < dist_key_spec(*p, e),
            decreases j + (if searching {
                1int
            } else {
                0int
            }),
        {
            if dist_key(p, &enemies[j - 1]) < ke {
                j = j - 1;
            } else {
                searching = false;
            }
        }
        assert(j == 0 || dist_key_spec(*p, enemies@[j - 1]) >= dist_key_spec(*p, e));
        let ghost pre = enemies@;
        let moved: Enemy = enemies.remove(i);
        enemies.insert(j, moved);
        proof {
            if sorted_desc(*p, old(enemies)@) {
                assert(enemies@ =~= pre);
            }
            broadcast use vstd::seq_lib::group_to_multiset_ensures, vstd::multiset::group_multiset_axioms;

            assert(moved == pre[i as int]);
            assert(pre.contains(moved));
            assert(enemies@ == pre.remove(i as int).insert(j as int, moved));
            assert(pre.to_multiset().count(moved) > 0);
            assert(enemies@.to_multiset() =~= pre.to_multiset());
            assert forall|k: int| 0 <= k < enemies@.len() implies {
                let q = #[trigger] enemies@[k];
                &&& -POS_LIMIT <= q.pos.x <= POS_LIMIT
                &&& -POS_LIMIT <= q.pos.y <= POS_LIMIT
                &&& 0 <= q.scale <= SPRITE_SCALE_LIMIT_FX
            } by {
                if k < j {
                    assert(enemies@[k] == pre[k]);
                } else if k == j {
                    assert(enemies@[k] == pre[i as int]);
                } else if k <= i {
                    assert(enemies@[k] == pre[k - 1]);
                } else {
                    assert(enemies@[k] == pre[k]);
                }
            }
            let s2 = enemies@.subrange(0, i + 1);
            assert forall|a: int, b: int| 0 <= a < b < s2.len() implies dist_key_spec(
                *p,
                #[trigger] s2[a],
            ) >= dist_key_spec(*p, #[trigger] s2[b]) by {
                assert(forall|k: int| 0 <= k <= i ==> #[trigger] s2[k] == enemies@[k]);
                if a < j {
                    assert(s2[a] == pre[a]);
                } else if a == j {
                    assert(s2[a] == pre[i as int]);
                } else {
                    assert(s2[a] == pre[a - 1]);
                }
                if b < j {
                    assert(s2[b] == pre[b]);
                } else if b == j {
                    assert(s2[b] == pre[i as int]);
                } else {
                    assert(s2[b] == pre[b - 1]);
                }
                assert(forall|k: int|
                    0 <= k < i ==> #[trigger] pre[k] == pre.subrange(0, i as int)[k]);
            }
            assert(sorted_desc(*p, enemies@.subrange(0, i + 1)));
        }
        i = i + 1;
    }
    proof {
        assert(enemies@.subrange(0, n as int) =~= enemies@);
    }
}

/// Every sprite in the list is occluded at screen column `x`.
pub open spec fn all_occluded_spec(p: Player, s: Seq<Enemy>, depth: Seq<i64>, x: int) -> bool {
    forall|k: int| 0 <= k < s.len() ==> column_occluded_spec(p, #[trigger] s[k], depth, x)
}

/// Distance attenuation of sprite texels, clamped to `[0.3, 1]`.
pub open spec fn sprite_shade_spec(dist_corr: int) -> int {
    clamp_spec(
        fx_div_spec(
            FX_ONE as int,
            sat_add_spec(FX_ONE as int, fx_mul_spec(dist_corr, SPRITE_SHADE_K_FX as int)),
        ),
        SPRITE_SHADE_MIN_FX as int,
        FX_ONE as int,
    )
}

/// What one stripe row writes: the texel sampled at the proportionally
/// mapped coordinates, attenuated and made opaque — or nothing, when the
/// texel is the transparency sentinel or has zero alpha.
pub open spec fn stripe_texel_spec(
    tex: TextureManager,
    id: char,
    tex_x: int,
    th: int,
    sprite_h: int,
    dist_corr: int,
    dy: int,
) -> Option<Color> {
    let tex_y = muldiv_sat_spec(dy * (FX_ONE as int), th, sprite_h);
    let c = sample_spec(tex, id, tex_x, tex_y);
    if c == transparent_color_spec() || c.a == 0 {
        None
    } else {
        let sc = shade_color_spec(c, sprite_shade_spec(dist_corr));
        Some(Color { r: sc.r, g: sc.g, b: sc.b, a: 255 })
    }
}

/// The sprite texture's size, with the `(1, 1)` stand-in for a missing tag.
pub open spec fn sprite_tex_w_spec(tex: TextureManager, id: char) -> int {
    match lookup(tex.tex@, id) {
        Some(t) => t.w as int,
        None => 1,
    }
}

pub open spec fn sprite_tex_h_spec(tex: TextureManager, id: char) -> int {
    match lookup(tex.tex@, id) {
        Some(t) => t.h as int,
        None => 1,
    }
}

/// The sprite's world height scaled by the base factor and its own scale.
pub open spec fn sprite_srh_spec(e: Enemy, block: int) -> int {
    fx_mul_spec(fx_mul_spec(block * (FX_ONE as int), ENEMY_BASE_SCALE_FX as int), e.scale as int)
}

/// Projected sprite height on screen, in pixel units (fixed).
pub open spec fn sprite_h_px_spec(p: Player, e: Enemy, proj: int, block: int) -> int {
    muldiv_sat_spec(sprite_srh_spec(e, block), proj, sprite_dist_corr_spec(p, e))
}

/// Projected sprite width: the height scaled by the texture aspect ratio.
pub open spec fn sprite_w_px_spec(
    p: Player,
    e: Enemy,
    tex: TextureManager,
    proj: int,
    block: int,
) -> int {
    muldiv_sat_spec(
        sprite_h_px_spec(p, e, proj, block),
        sprite_tex_w_spec(tex, e.id),
        sprite_tex_h_spec(tex, e.id),
    )
}

/// Horizontal screen center of the sprite, in pixel units (fixed).
pub open spec fn sprite_center_x_spec(p: Player, e: Enemy, width: int) -> int {
    let half_w = width * (FX_HALF as int);
    half_w + fx_mul_spec(fx_div_spec(sprite_angle_diff_spec(p, e), p.fov as int / 2), half_w)
}

/// First screen column of the clamped draw rectangle.
pub open spec fn sprite_x0_spec(
    p: Player,
    e: Enemy,
    tex: TextureManager,
    proj: int,
    block: int,
    width: int,
) -> int {
    let w2 = sprite_w_px_spec(p, e, tex, proj, block) / 2;
    let f = sprite_center_x_spec(p, e, width) - w2;
    (if f < 0 {
        0
    } else {
        f
    }) / (FX_ONE as int)
}

/// One past the last screen column of the clamped draw rectangle.
pub open spec fn sprite_x1_spec(
    p: Player,
    e: Enemy,
    tex: TextureManager,
    proj: int,
    block: int,
    width: int,
) -> int {
    let w2 = sprite_w_px_spec(p, e, tex, proj, block) / 2;
    let f = sprite_center_x_spec(p, e, width) + w2;
    let c = if f > width * (FX_ONE as int) {
        width * (FX_ONE as int)
    } else if f < 0 {
        0
    } else {
        f
    };
    c / (FX_ONE as int)
}

/// First screen row of the clamped draw rectangle: the horizon row, since
/// the vertical offset cancels half the height.
pub open spec fn sprite_y0_spec(p: Player, e: Enemy, proj: int, block: int, height: int) -> int {
    let h2 = sprite_h_px_spec(p, e, proj, block) / 2;
    let f = height * (FX_HALF as int) - h2 + h2;
    (if f < 0 {
        0
    } else {
        f
    }) / (FX_ONE as int)
}

/// One past the last screen row of the clamped draw rectangle.
pub open spec fn sprite_y1_spec(p: Player, e: Enemy, proj: int, block: int, height: int) -> int {
    let h2 = sprite_h_px_spec(p, e, proj, block) / 2;
    let f = height * (FX_HALF as int) + h2 + h2;
    let c = if f > height * (FX_ONE as int) {
        height * (FX_ONE as int)
    } else if f < 0 {
        0
    } else {
        f
    };
    c / (FX_ONE as int)
}

pub open spec fn imin(a: int, b: int) -> int {
    if a < b {
        a
    } else {
        b
    }
}

/// The minimum wall depth sampled every second column of `[i, sx1]`.
pub open spec fn strided_min_spec(depth: Seq<i64>, i: int, sx1: int) -> int
    decreases sx1 + 2 - i,
{
    if i > sx1 {
        FX_INF as int
    } else {
        imin(depth[i] as int, strided_min_spec(depth, i + 2, sx1))
    }
}

/// The depth sample of the coarse cull: the strided minimum plus the last
/// column of the span.
pub open spec fn coarse_min_spec(depth: Seq<i64>, sx0: int, sx1: int) -> int {
    imin(strided_min_spec(depth, sx0, sx1), depth[sx1] as int)
}

/// The strided minimum of in-range depth entries stays within the depth
/// value range.
proof fn lemma_strided_min_bounds(depth: Seq<i64>, i: int, sx1: int)
    requires
        0 <= i,
        sx1 < depth.len(),
        forall|k: int| 0 <= k < depth.len() ==> 0 <= #[trigger] depth[k] <= FX_INF,
    ensures
        0 <= strided_min_spec(depth, i, sx1) <= FX_INF,
    decreases sx1 + 2 - i,
{
    if i <= sx1 {
        lemma_strided_min_bounds(depth, i + 2, sx1);
    }
}

/// The whole sprite is discarded when the sampled wall depth across its
/// column span (with the safety margin) is nearer than the sprite.
pub open spec fn sprite_coarse_culled_spec(
    p: Player,
    e: Enemy,
    tex: TextureManager,
    depth: Seq<i64>,
    proj: int,
    block: int,
    width: int,
) -> bool {
    let x0 = sprite_x0_spec(p, e, tex, proj, block, width);
    let x1 = sprite_x1_spec(p, e, tex, proj, block, width);
    let s1 = if x1 >= width {
        width - 1
    } else {
        x1
    };
    &&& x1 > x0
    &&& x0 < s1
    &&& s1 < depth.len()
    &&& sprite_dist_corr_spec(p, e) > fx_mul_spec(
        coarse_min_spec(depth, x0, s1),
        DEPTH_MARGIN_FX as int,
    )
}

/// The sprite draws at least somewhere: inside the field of view, beyond
/// the near plane, at least one pixel tall and wide, and not discarded by
/// the coarse depth cull.
pub open spec fn sprite_drawn_spec(
    p: Player,
    e: Enemy,
    tex: TextureManager,
    depth: Seq<i64>,
    proj: int,
    block: int,
    width: int,
) -> bool {
    &&& !sprite_fov_culled_spec(p, e)
    &&& !sprite_near_culled_spec(p, e)
    &&& sprite_w_px_spec(p, e, tex, proj, block) >= FX_ONE
    &&& sprite_h_px_spec(p, e, proj, block) >= FX_ONE
    &&& !sprite_coarse_culled_spec(p, e, tex, depth, proj, block, width)
}

/// Horizontal texture coordinate of screen column `x` of the rectangle.
pub open spec fn sprite_tex_x_spec(
    p: Player,
    e: Enemy,
    tex: TextureManager,
    proj: int,
    block: int,
    width: int,
    x: int,
) -> int {
    muldiv_sat_spec(
        (x - sprite_x0_spec(p, e, tex, proj, block, width)) * (FX_ONE as int),
        sprite_tex_w_spec(tex, e.id),
        sprite_w_px_spec(p, e, tex, proj, block),
    )
}

/// What projecting one sprite does to the screen pixel `(x, y)`: the
/// attenuated opaque texel it writes, or nothing — because the sprite is
/// culled, the pixel is outside the clamped rectangle, the wall in that
/// column is nearer, or the texel is transparent.
pub open spec fn sprite_pixel_spec(
    p: Player,
    e: Enemy,
    tex: TextureManager,
    depth: Seq<i64>,
    proj: int,
    block: int,
    width: int,
    height: int,
    x: int,
    y: int,
) -> Option<Color> {
    if !sprite_drawn_spec(p, e, tex, depth, proj, block, width) {
        None
    } else if !(sprite_x0_spec(p, e, tex, proj, block, width) <= x < sprite_x1_spec(
        p,
        e,
        tex,
        proj,
        block,
        width,
    )) {
        None
    } else if column_occluded_spec(p, e, depth, x) {
        None
    } else if !(sprite_y0_spec(p, e, proj, block, height) <= y < sprite_y1_spec(
        p,
        e,
        proj,
        block,
        height,
    )) {
        None
    } else {
        stripe_texel_spec(
            tex,
            e.id,
            sprite_tex_x_spec(p, e, tex, proj, block, width, x),
            sprite_tex_h_spec(tex, e.id),
            sprite_h_px_spec(p, e, proj, block),
            sprite_dist_corr_spec(p, e),
            y - sprite_y0_spec(p, e, proj, block, height),
        )
    }
}

/// The color of pixel `(x, y)` after projecting one sprite over a base
/// color: the sprite's texel where it draws, the base everywhere else.
pub open spec fn sprite_outcome_spec(
    p: Player,
    e: Enemy,
    tex: TextureManager,
    depth: Seq<i64>,
    proj: int,
    block: int,
    width: int,
    height: int,
    x: int,
    y: int,
    base: Color,
) -> Color {
    match sprite_pixel_spec(p, e, tex, depth, proj, block, width, height, x, y) {
        Some(c) => c,
        None => base,
    }
}

/// Draw the vertical texture stripe of a sprite at screen column `stripe`:
/// each row of `[y0, y1)` receives exactly what `stripe_texel_spec` says
/// (skipping transparent texels); no other pixel changes.
#[verifier::loop_isolation(false)]
#[verifier::rlimit(100)]
fn draw_sprite_stripe(
    fb: &mut Framebuffer,
    tex: &TextureManager,
    id: char,
    stripe: u32,
    y0: i64,
    y1: i64,
    tex_x: u32,
    th: u32,
    sprite_h: i64,
    dist_corr: i64,
)
    requires
        old(fb).wf(),
        tex.wf(),
        0 <= y0 <= y1 <= old(fb).height,
        FX_ONE <= sprite_h <= FX_INF,
        1 <= th <= 4096,
        0 < dist_corr <= FX_INF,
    ensures
        frame_shape_kept(*old(fb), *final(fb)),
        forall|qx: int, qy: int|
            0 <= qx < old(fb).width && 0 <= qy < old(fb).height ==> final(fb).pixel(qx, qy) == (
            if qx == stripe && y0 <= qy < y1 && stripe_texel_spec(
                *tex,
                id,
                tex_x as int,
                th as int,
                sprite_h as int,
                dist_corr as int,
                qy - y0,
            ) is Some {
                stripe_texel_spec(
                    *tex,
                    id,
                    tex_x as int,
                    th as int,
                    sprite_h as int,
                    dist_corr as int,
                    qy - y0,
                )->Some_0
            } else {
                old(fb).pixel(qx, qy)
            }),
{
    proof {
        lemma_fx_mul_unit_bound(dist_corr as int, SPRITE_SHADE_K_FX as int);
        lemma_nonneg_div_matches((dist_corr as int) * (SPRITE_SHADE_K_FX as int), FX_ONE as int);
    }
    let den: i64 = sat_add(FX_ONE, fx_mul(dist_corr, SPRITE_SHADE_K_FX));
    let shade: i64 = clamp_fx(fx_div(FX_ONE, den), SPRITE_SHADE_MIN_FX, FX_ONE);
    assert(shade == sprite_shade_spec(dist_corr as int));
    let transparent: Color = transparent_color();
    let mut y: i64 = y0;
    while y < y1
        invariant
            y0 <= y <= y1,
            frame_shape_kept(*old(fb), *fb),
            shade == sprite_shade_spec(dist_corr as int),
            forall|qx: int, qy: int|
                0 <= qx < old(fb).width && 0 <= qy < old(fb).height ==> fb.pixel(qx, qy) == (
                if qx == stripe && y0 <= qy < y && stripe_texel_spec(
                    *tex,
                    id,
                    tex_x as int,
                    th as int,
                    sprite_h as int,
                    dist_corr as int,
                    qy - y0,
                ) is Some {
                    stripe_texel_spec(
                        *tex,
                        id,
                        tex_x as int,
                        th as int,
                        sprite_h as int,
                        dist_corr as int,
                        qy - y0,
                    )->Some_0
                } else {
                    old(fb).pixel(qx, qy)
                }),
        decreases y1 - y,
    {
        proof {
            assert(0 <= (y - y0) * (FX_ONE as int) <= 0x4000_0000) by (nonlinear_arith)
                requires
                    0 <= y - y0 <= 0x4000,
            ;
        }
        let a: i64 = (y - y0) * FX_ONE;
        let tex_y_fx: i64 = muldiv_sat(a, th as i64, sprite_h);
        proof {
            assert(muldiv_sat_spec(a as int, th as int, sprite_h as int)
                <= 0x400_0000) by (nonlinear_arith)
                requires
                    0 <= a <= 0x4000_0000,
                    1 <= th <= 4096,
                    sprite_h >= FX_ONE,
            ;
        }
        let tex_y: u32 = tex_y_fx as u32;
        let c: Color = tex.sample(id, tex_x, tex_y);
        let ghost texel = stripe_texel_spec(
            *tex,
            id,
            tex_x as int,
            th as int,
            sprite_h as int,
            dist_corr as int,
            y - y0,
        );
        if !(c == transparent || c.a == 0) {
            let sc: Color = shade_color(c, shade);
            let fc: Color = Color { r: sc.r, g: sc.g, b: sc.b, a: 255 };
            proof {
                assert(texel == Some(fc));
            }
            let ghost prev = *fb;
            fb.set_pixel_color(stripe, y as u32, fc);
            proof {
                assert forall|qx: int, qy: int|
                    0 <= qx < old(fb).width && 0 <= qy < old(fb).height implies fb.pixel(qx, qy)
                    == (if qx == stripe && y0 <= qy < y + 1 && stripe_texel_spec(
                    *tex,
                    id,
                    tex_x as int,
                    th as int,
                    sprite_h as int,
                    dist_corr as int,
                    qy - y0,
                ) is Some {
                    stripe_texel_spec(
                        *tex,
                        id,
                        tex_x as int,
                        th as int,
                        sprite_h as int,
                        dist_corr as int,
                        qy - y0,
                    )->Some_0
                } else {
                    old(fb).pixel(qx, qy)
                }) by {
                    if prev.pix_in_bounds(stripe as int, y as int) {
                        lemma_row_major_in_range(qx, qy, prev.width as int, prev.height as int);
                        lemma_row_major_in_range(
                            stripe as int,
                            y as int,
                            prev.width as int,
                            prev.height as int,
                        );
                        if qy * (prev.width as int) + qx == (y as int) * (prev.width as int) + (
                        stripe as int) {
                            lemma_row_major_injective(
                                qx,
                                qy,
                                stripe as int,
                                y as int,
                                prev.width as int,
                            );
                            assert(fb.pixel(qx, qy) == fc);
                        } else {
                            assert(fb.pixel(qx, qy) == prev.pixel(qx, qy));
                            assert(!(qx == stripe && qy == y));
                        }
                    } else {
                        assert(fb.pixels() == prev.pixels());
                        assert(fb.pixel(qx, qy) == prev.pixel(qx, qy));
                        assert(!(qx == stripe && qy == y));
                    }
                }
            }
        } else {
            proof {
                assert(texel is None);
            }
        }
        y = y + 1;
    }
}

/// Project and draw one sprite: cull against the field of view, the near
/// plane and the sampled wall depth, then draw the visible stripes. Every
/// pixel of the frame ends up exactly as `sprite_pixel_spec` says: a culled
/// sprite leaves the frame untouched, a column whose wall is nearer than
/// the sprite is never written, and a visible texel is written attenuated
/// and opaque.
#[verifier::loop_isolation(false)]
#[verifier::rlimit(100)]
pub fn draw_one_sprite(
    fb: &mut Framebuffer,
    player: &Player,
    enemy: &Enemy,
    tex: &TextureManager,
    depth_buffer: &Vec<i64>,
    proj_plane: i64,
    block_size: usize,
)
    requires
        old(fb).wf(),
        tex.wf(),
        1 <= block_size <= BLOCK_LIMIT,
        -POS_LIMIT <= player.pos.x <= POS_LIMIT,
        -POS_LIMIT <= player.pos.y <= POS_LIMIT,
        -PI_FX <= player.a <= PI_FX,
        2 <= player.fov <= PI_FX,
        -POS_LIMIT <= enemy.pos.x <= POS_LIMIT,
        -POS_LIMIT <= enemy.pos.y <= POS_LIMIT,
        0 <= enemy.scale <= SPRITE_SCALE_LIMIT_FX,
        0 <= proj_plane <= FX_INF,
        depth_buffer.len() == old(fb).width,
        forall|k: int| 0 <= k < depth_buffer.len() ==> 0 <= #[trigger] depth_buffer@[k] <= FX_INF,
    ensures
        frame_shape_kept(*old(fb), *final(fb)),
        forall|x: int, y: int|
            0 <= x < old(fb).width && 0 <= y < old(fb).height ==> final(fb).pixel(x, y)
                == sprite_outcome_spec(
                *player,
                *enemy,
                *tex,
                depth_buffer@,
                proj_plane as int,
                block_size as int,
                old(fb).width as int,
                old(fb).height as int,
                x,
                y,
                old(fb).pixel(x, y),
            ),
        (sprite_fov_culled_spec(*player, *enemy) || sprite_near_culled_spec(*player, *enemy))
            ==> *final(fb) == *old(fb),
        forall|x: int, y: int|
            0 <= x < old(fb).width && 0 <= y < old(fb).height && column_occluded_spec(
                *player,
                *enemy,
                depth_buffer@,
                x,
            ) ==> final(fb).pixel(x, y) == old(fb).pixel(x, y),
{
    let ghost gw = old(fb).width as int;
    let ghost gh = old(fb).height as int;
    let width: u32 = fb.width;
    let height: u32 = fb.height;
    let dx: i64 = enemy.pos.x - player.pos.x;
    let dy: i64 = enemy.pos.y - player.pos.y;
    let ax: u64 = if dx < 0 {
        (-dx) as u64
    } else {
        dx as u64
    };
    let ay: u64 = if dy < 0 {
        (-dy) as u64
    } else {
        dy as u64
    };
    proof {
        assert(ax * ax + ay * ay <= 2 * ((2 * POS_LIMIT as int) * (2
            * POS_LIMIT as int))) by (nonlinear_arith)
            requires
                0 <= ax <= 2 * POS_LIMIT,
                0 <= ay <= 2 * POS_LIMIT,
        ;
        assert((ax as int) * (ax as int) == (dx as int) * (dx as int) && (ay as int) * (ay as int)
            == (dy as int) * (dy as int)) by (nonlinear_arith)
            requires
                ax == sabs(dx as int),
                ay == sabs(dy as int),
        ;
    }
    let d2: u64 = ax * ax + ay * ay;
    let dist: i64 = isqrt64(d2) as i64;
    proof {
        lemma_sqrt_unique(d2 as int, dist as int);
        assert(dist == sprite_dist_spec(*player, *enemy));
    }
    let sprite_angle: i64 = atan2_fx(dy, dx);
    let angle_diff: i64 = norm_angle(sprite_angle - player.a);
    assert(angle_diff == sprite_angle_diff_spec(*player, *enemy));
    let fov2: i64 = ((player.fov as u64) / 2) as i64;
    let adiff_abs: i64 = if angle_diff < 0 {
        -angle_diff
    } else {
        angle_diff
    };
    if adiff_abs > fov2 + FOV_MARGIN_FX {
        assert(sprite_fov_culled_spec(*player, *enemy));
        return ;
    }
    let cosd: i64 = cos_fx(angle_diff);
    proof {
        lemma_fx_mul_unit_bound(dist as int, cosd as int);
    }
    let dist_corr: i64 = fx_mul(dist, cosd);
    assert(dist_corr == sprite_dist_corr_spec(*player, *enemy));
    if dist_corr <= NEAR_CLIP_FX {
        assert(sprite_near_culled_spec(*player, *enemy));
        return ;
    }

    let block_fx: i64 = (block_size as i64) * FX_ONE;
    proof {
        lemma_fx_mul_unit_bound(block_fx as int, ENEMY_BASE_SCALE_FX as int);
        lemma_nonneg_div_matches((block_fx as int) * (ENEMY_BASE_SCALE_FX as int), FX_ONE as int);
    }
    let sr0: i64 = fx_mul(block_fx, ENEMY_BASE_SCALE_FX);
    proof {
        lemma_nonneg_div_matches(sabs(sr0 as int) * sabs(enemy.scale as int), FX_ONE as int);
    }
    let srh: i64 = fx_mul(sr0, enemy.scale);
    assert(srh == sprite_srh_spec(*enemy, block_size as int) && 0 <= srh <= FX_INF);
    let sprite_h: i64 = muldiv_sat(srh, proj_plane, dist_corr);
    assert(sprite_h == sprite_h_px_spec(
        *player,
        *enemy,
        proj_plane as int,
        block_size as int,
    ));

    let (tw, th) = tex.get_size(enemy.id);
    proof {
        crate::textures::lemma_lookup_wf(tex.tex@, enemy.id);
        assert(tw == sprite_tex_w_spec(*tex, enemy.id) && th == sprite_tex_h_spec(*tex, enemy.id));
        assert(1 <= tw <= 4096 && 1 <= th <= 4096);
    }
    let sprite_w: i64 = muldiv_sat(sprite_h, tw as i64, th as i64);
    assert(sprite_w == sprite_w_px_spec(
        *player,
        *enemy,
        *tex,
        proj_plane as int,
        block_size as int,
    ));
    if sprite_w < FX_ONE || sprite_h < FX_ONE {
        assert(!sprite_drawn_spec(
            *player,
            *enemy,
            *tex,
            depth_buffer@,
            proj_plane as int,
            block_size as int,
            gw,
        ));
        return ;
    }

    let t: i64 = fx_div(angle_diff, fov2);
    let half_w_fx: i64 = (width as i64) * FX_HALF;
    let half_h_fx: i64 = (height as i64) * FX_HALF;
    proof {
        assert(0 <= (width as int) * (FX_HALF as int) <= 16384 * (FX_HALF as int) && 0 <= (
        height as int) * (FX_HALF as int) <= 16384 * (FX_HALF as int)) by (nonlinear_arith)
            requires
                width <= 16384,
                height <= 16384,
        ;
    }
    let off: i64 = fx_mul(t, half_w_fx);
    let sxc: i64 = half_w_fx + off;
    assert(sxc == sprite_center_x_spec(*player, *enemy, gw));

    let v_move: i64 = ((sprite_h as u64) / 2) as i64;
    let hh2: i64 = ((sprite_h as u64) / 2) as i64;
    let sy0f: i64 = half_h_fx - hh2 + v_move;
    let sy1f: i64 = half_h_fx + hh2 + v_move;
    let screen_h_fx: i64 = (height as i64) * FX_ONE;
    let screen_w_fx: i64 = (width as i64) * FX_ONE;
    proof {
        assert(0 <= (width as int) * (FX_ONE as int) <= 16384 * (FX_ONE as int) && 0 <= (
        height as int) * (FX_ONE as int) <= 16384 * (FX_ONE as int)) by (nonlinear_arith)
            requires
                width <= 16384,
                height <= 16384,
        ;
        assert((width as int) * (FX_ONE as int) / (FX_ONE as int) == width && (height as int) * (
        FX_ONE as int) / (FX_ONE as int) == height) by (nonlinear_arith);
    }
    let sy0c: i64 = if sy0f < 0 {
        0
    } else {
        sy0f
    };
    let draw_start_y: i64 = ((sy0c as u64) / (FX_ONE as u64)) as i64;
    let sy1c: i64 = if sy1f > screen_h_fx {
        screen_h_fx
    } else if sy1f < 0 {
        0
    } else {
        sy1f
    };
    let draw_end_y: i64 = ((sy1c as u64) / (FX_ONE as u64)) as i64;
    proof {
        lemma_nonneg_div_matches(sy1c as int, FX_ONE as int);
        assert(sy1c <= (height as int) * (FX_ONE as int) ==> (sy1c as int) / (FX_ONE as int) <= (
        height as int) * (FX_ONE as int) / (FX_ONE as int)) by (nonlinear_arith);
        assert(draw_start_y == sprite_y0_spec(
            *player,
            *enemy,
            proj_plane as int,
            block_size as int,
            gh,
        ));
        assert(draw_end_y == sprite_y1_spec(
            *player,
            *enemy,
            proj_plane as int,
            block_size as int,
            gh,
        ));
        assert(draw_start_y <= draw_end_y);
    }

    let ww2: i64 = ((sprite_w as u64) / 2) as i64;
    let sx0f: i64 = sxc - ww2;
    let sx1f: i64 = sxc + ww2;
    let sx0c: i64 = if sx0f < 0 {
        0
    } else {
        sx0f
    };
    let draw_start_x: i64 = ((sx0c as u64) / (FX_ONE as u64)) as i64;
    let sx1c: i64 = if sx1f > screen_w_fx {
        screen_w_fx
    } else if sx1f < 0 {
        0
    } else {
        sx1f
    };
    let draw_end_x: i64 = ((sx1c as u64) / (FX_ONE as u64)) as i64;
    proof {
        lemma_nonneg_div_matches(sx1c as int, FX_ONE as int);
        assert(sx1c <= (width as int) * (FX_ONE as int) ==> (sx1c as int) / (FX_ONE as int) <= (
        width as int) * (FX_ONE as int) / (FX_ONE as int)) by (nonlinear_arith);
        assert(draw_start_x == sprite_x0_spec(
            *player,
            *enemy,
            *tex,
            proj_plane as int,
            block_size as int,
            gw,
        ));
        assert(draw_end_x == sprite_x1_spec(
            *player,
            *enemy,
            *tex,
            proj_plane as int,
            block_size as int,
            gw,
        ));
        assert(draw_end_x <= width);
        assert(draw_end_y <= height);
    }

    let mut coarse_culled: bool = false;
    if draw_end_x > draw_start_x {
        let sx0: i64 = draw_start_x;
        let mut sx1: i64 = draw_end_x;
        if sx1 >= width as i64 {
            sx1 = width as i64 - 1;
        }
        if sx0 < sx1 && sx1 < depth_buffer.len() as i64 {
            proof {
                lemma_strided_min_bounds(depth_buffer@, sx0 as int, sx1 as int);
            }
            let mut min_depth: i64 = FX_INF;
            let mut ii: i64 = sx0;
            while ii <= sx1
                invariant
                    sx0 <= ii <= sx1 + 2,
                    0 <= sx0,
                    sx1 < depth_buffer.len(),
                    0 <= min_depth <= FX_INF,
                    imin(min_depth as int, strided_min_spec(depth_buffer@, ii as int, sx1 as int))
                        == strided_min_spec(depth_buffer@, sx0 as int, sx1 as int),
                decreases sx1 + 2 - ii,
            {
                proof {
                    lemma_strided_min_bounds(depth_buffer@, ii + 2, sx1 as int);
                }
                let d: i64 = depth_buffer[ii as usize];
                if d < min_depth {
                    min_depth = d;
                }
                ii = ii + 2;
            }
            let last_d: i64 = depth_buffer[sx1 as usize];
            if last_d < min_depth {
                min_depth = last_d;
            }
            assert(min_depth == coarse_min_spec(depth_buffer@, sx0 as int, sx1 as int));
            proof {
                lemma_fx_mul_unit_bound(min_depth as int, DEPTH_MARGIN_FX as int);
            }
            if dist_corr > fx_mul(min_depth, DEPTH_MARGIN_FX) {
                coarse_culled = true;
            }
        }
    }
    assert(coarse_culled == sprite_coarse_culled_spec(
        *player,
        *enemy,
        *tex,
        depth_buffer@,
        proj_plane as int,
        block_size as int,
        gw,
    ));
    if coarse_culled {
        return ;
    }
    assert(sprite_drawn_spec(
        *player,
        *enemy,
        *tex,
        depth_buffer@,
        proj_plane as int,
        block_size as int,
        gw,
    ));

    if draw_start_x >= draw_end_x {
        return ;
    }
    let mut stripe: i64 = draw_start_x;
    while stripe < draw_end_x
        invariant
            0 <= draw_start_x <= stripe,
            stripe <= draw_end_x <= width,
            frame_shape_kept(*old(fb), *fb),
            forall|x: int, y: int|
                0 <= x < gw && 0 <= y < gh ==> fb.pixel(x, y) == (if x < stripe {
                    sprite_outcome_spec(
                        *player,
                        *enemy,
                        *tex,
                        depth_buffer@,
                        proj_plane as int,
                        block_size as int,
                        gw,
                        gh,
                        x,
                        y,
                        old(fb).pixel(x, y),
                    )
                } else {
                    old(fb).pixel(x, y)
                }),
        decreases draw_end_x - stripe,
    {
        let sidx: usize = stripe as usize;
        let ghost before = *fb;
        if dist_corr > depth_buffer[sidx] {
            proof {
                assert(column_occluded_spec(*player, *enemy, depth_buffer@, stripe as int));
            }
        } else {
            proof {
                assert(0 <= (stripe - draw_start_x) * (FX_ONE as int)
                    <= 0x4000_0000) by (nonlinear_arith)
                    requires
                        0 <= stripe - draw_start_x <= 0x4000,
                ;
            }
            let a: i64 = (stripe - draw_start_x) * FX_ONE;
            let tex_x_fx: i64 = muldiv_sat(a, tw as i64, sprite_w);
            proof {
                assert(muldiv_sat_spec(a as int, tw as int, sprite_w as int)
                    <= 0x400_0000) by (nonlinear_arith)
                    requires
                        0 <= a <= 0x4000_0000,
                        1 <= tw <= 4096,
                        sprite_w >= FX_ONE,
                ;
            }
            let tex_x: u32 = tex_x_fx as u32;
            assert(tex_x == sprite_tex_x_spec(
                *player,
                *enemy,
                *tex,
                proj_plane as int,
                block_size as int,
                gw,
                stripe as int,
            ));
            draw_sprite_stripe(
                fb,
                tex,
                enemy.id,
                stripe as u32,
                draw_start_y,
                draw_end_y,
                tex_x,
                th,
                sprite_h,
                dist_corr,
            );
        }
        proof {
            assert forall|x: int, y: int| 0 <= x < gw && 0 <= y < gh implies fb.pixel(x, y) == (
            if x < stripe + 1 {
                sprite_outcome_spec(
                    *player,
                    *enemy,
                    *tex,
                    depth_buffer@,
                    proj_plane as int,
                    block_size as int,
                    gw,
                    gh,
                    x,
                    y,
                    old(fb).pixel(x, y),
                )
            } else {
                old(fb).pixel(x, y)
            }) by {
                if x == stripe {
                    assert(fb.pixel(x, y) == sprite_outcome_spec(
                        *player,
                        *enemy,
                        *tex,
                        depth_buffer@,
                        proj_plane as int,
                        block_size as int,
                        gw,
                        gh,
                        x,
                        y,
                        old(fb).pixel(x, y),
                    ));
                } else {
                    assert(fb.pixel(x, y) == before.pixel(x, y));
                }
            }
        }
        stripe = stripe + 1;
    }
}

/// The color of pixel `(x, y)` after projecting the first `i` sprites of
/// `s` in order over a base color.
pub open spec fn sprites_fold_spec(
    p: Player,
    s: Seq<Enemy>,
    tex: TextureManager,
    depth: Seq<i64>,
    proj: int,
    block: int,
    width: int,
    height: int,
    i: int,
    x: int,
    y: int,
    base: Color,
) -> Color
    decreases i,
{
    if i <= 0 {
        base
    } else {
        sprite_outcome_spec(
            p,
            s[i - 1],
            tex,
            depth,
            proj,
            block,
            width,
            height,
            x,
            y,
            sprites_fold_spec(p, s, tex, depth, proj, block, width, height, i - 1, x, y, base),
        )
    }
}

/// Law: projecting the same sprite list over its own result changes
/// nothing — each pixel is either some sprite's texel (and gets that texel
/// again) or the base (and stays the base). With the depth buffer read-only
/// and the farthest-first sort leaving a sorted list unchanged, a second
/// projector run draws exactly the same columns and pixels.
pub proof fn lemma_projector_idempotent(
    p: Player,
    s: Seq<Enemy>,
    tex: TextureManager,
    depth: Seq<i64>,
    proj: int,
    block: int,
    width: int,
    height: int,
    i: int,
    x: int,
    y: int,
    base: Color,
)
    ensures
        sprites_fold_spec(
            p,
            s,
            tex,
            depth,
            proj,
            block,
            width,
            height,
            i,
            x,
            y,
            sprites_fold_spec(p, s, tex, depth, proj, block, width, height, i, x, y, base),
        ) == sprites_fold_spec(p, s, tex, depth, proj, block, width, height, i, x, y, base),
    decreases i,
{
    if i > 0 {
        if sprite_pixel_spec(p, s[i - 1], tex, depth, proj, block, width, height, x, y) is Some {
        } else {
            lemma_projector_idempotent(
                p, s, tex, depth, proj, block, width, height, i - 1, x, y, base,
            );
        }
    }
}

/// The sprite projector: sort farthest-first, then project and draw each
/// sprite against the shared depth buffer, which is only read. Every pixel
/// of the frame ends up as the fold of `sprite_pixel_spec` over the sorted
/// list; in particular a screen column in which every sprite is behind the
/// wall keeps its pixels.
#[verifier::loop_isolation(false)]
pub fn draw_sprites(
    fb: &mut Framebuffer,
    player: &Player,
    enemies: &mut Vec<Enemy>,
    tex: &TextureManager,
    depth_buffer: &Vec<i64>,
    proj_plane: i64,
    block_size: usize,
)
    requires
        old(fb).wf(),
        tex.wf(),
        1 <= block_size <= BLOCK_LIMIT,
        -POS_LIMIT <= player.pos.x <= POS_LIMIT,
        -POS_LIMIT <= player.pos.y <= POS_LIMIT,
        -PI_FX <= player.a <= PI_FX,
        2 <= player.fov <= PI_FX,
        enemies_wf(old(enemies)@),
        0 <= proj_plane <= FX_INF,
        depth_buffer.len() == old(fb).width,
        forall|k: int| 0 <= k < depth_buffer.len() ==> 0 <= #[trigger] depth_buffer@[k] <= FX_INF,
    ensures
        frame_shape_kept(*old(fb), *final(fb)),
        final(enemies)@.to_multiset() == old(enemies)@.to_multiset(),
        final(enemies)@.len() == old(enemies)@.len(),
        enemies_wf(final(enemies)@),
        old(enemies)@.len() > 0 ==> sorted_desc(*player, final(enemies)@),
        forall|x: int, y: int|
            0 <= x < old(fb).width && 0 <= y < old(fb).height ==> final(fb).pixel(x, y)
                == sprites_fold_spec(
                *player,
                final(enemies)@,
                *tex,
                depth_buffer@,
                proj_plane as int,
                block_size as int,
                old(fb).width as int,
                old(fb).height as int,
                final(enemies)@.len() as int,
                x,
                y,
                old(fb).pixel(x, y),
            ),
        forall|x: int, y: int|
            0 <= x < old(fb).width && 0 <= y < old(fb).height && all_occluded_spec(
                *player,
                final(enemies)@,
                depth_buffer@,
                x,
            ) ==> final(fb).pixel(x, y) == old(fb).pixel(x, y),
{
    if enemies.len() == 0 {
        return ;
    }
    sort_by_dist(player, enemies);
    let n: usize = enemies.len();
    let mut i: usize = 0;
    while i < n
        invariant
            0 <= i <= n,
            enemies@.len() == n,
            frame_shape_kept(*old(fb), *fb),
            forall|x: int, y: int|
                0 <= x < old(fb).width && 0 <= y < old(fb).height ==> fb.pixel(x, y)
                    == sprites_fold_spec(
                    *player,
                    enemies@,
                    *tex,
                    depth_buffer@,
                    proj_plane as int,
                    block_size as int,
                    old(fb).width as int,
                    old(fb).height as int,
                    i as int,
                    x,
                    y,
                    old(fb).pixel(x, y),
                ),
            forall|x: int, y: int|
                0 <= x < old(fb).width && 0 <= y < old(fb).height && all_occluded_spec(
                    *player,
                    enemies@,
                    depth_buffer@,
                    x,
                ) ==> fb.pixel(x, y) == old(fb).pixel(x, y),
        decreases n - i,
    {
        let e: Enemy = enemies[i];
        let ghost before = *fb;
        draw_one_sprite(fb, player, &e, tex, depth_buffer, proj_plane, block_size);
        proof {
            assert forall|x: int, y: int|
                0 <= x < old(fb).width && 0 <= y < old(fb).height implies fb.pixel(x, y)
                == sprites_fold_spec(
                *player,
                enemies@,
                *tex,
                depth_buffer@,
                proj_plane as int,
                block_size as int,
                old(fb).width as int,
                old(fb).height as int,
                i + 1,
                x,
                y,
                old(fb).pixel(x, y),
            ) by {
                assert(fb.pixel(x, y) == sprite_outcome_spec(
                    *player,
                    e,
                    *tex,
                    depth_buffer@,
                    proj_plane as int,
                    block_size as int,
                    old(fb).width as int,
                    old(fb).height as int,
                    x,
                    y,
                    before.pixel(x, y),
                ));
            }
            assert forall|x: int, y: int|
                0 <= x < old(fb).width && 0 <= y < old(fb).height && all_occluded_spec(
                    *player,
                    enemies@,
                    depth_buffer@,
                    x,
                ) implies fb.pixel(x, y) == old(fb).pixel(x, y) by {
                assert(column_occluded_spec(*player, enemies@[i as int], depth_buffer@, x));
                assert(fb.pixel(x, y) == before.pixel(x, y));
            }
        }
        i = i + 1;
    }
}

/// Law: which columns the projector may touch depends only on the camera,
/// the sprites as a set, and the depth buffer. Reordering the sprite list
/// (as the farthest-first sort does between runs) leaves the guarantee of
/// `draw_sprites` for fully occluded columns unchanged, so running the
/// projector twice cannot change which columns are drawn.
pub proof fn lemma_all_occluded_permutation(
    p: Player,
    s1: Seq<Enemy>,
    s2: Seq<Enemy>,
    depth: Seq<i64>,
    x: int,
)
    requires
        s1.to_multiset() == s2.to_multiset(),
    ensures
        all_occluded_spec(p, s1, depth, x) <==> all_occluded_spec(p, s2, depth, x),
{
    broadcast use vstd::seq_lib::group_to_multiset_ensures;

    if all_occluded_spec(p, s1, depth, x) {
        assert forall|k: int| 0 <= k < s2.len() implies column_occluded_spec(
            p,
            #[trigger] s2[k],
            depth,
            x,
        ) by {
            assert(s2.contains(s2[k]));
            assert(s2.to_multiset().count(s2[k]) > 0);
            assert(s1.contains(s2[k]));
            let j = choose|j: int| 0 <= j < s1.len() && s1[j] == s2[k];
            assert(column_occluded_spec(p, s1[j], depth, x));
        }
    }
    if all_occluded_spec(p, s2, depth, x) {
        assert forall|k: int| 0 <= k < s1.len() implies column_occluded_spec(
            p,
            #[trigger] s1[k],
            depth,
            x,
        ) by {
            assert(s1.contains(s1[k]));
            assert(s1.to_multiset().count(s1[k]) > 0);
            assert(s2.contains(s1[k]));
            let j = choose|j: int| 0 <= j < s2.len() && s2[j] == s1[k];
            assert(column_occluded_spec(p, s2[j], depth, x));
        }
    }
}

} // verus!
