//! The DDA caster: walks a ray cell by cell through the grid, stepping along
//! whichever axis reaches its next cell boundary soonest, and reports the
//! first non-empty cell together with the perpendicular hit distance, the hit
//! face (side) and the sub-cell texture fraction.
//!
//! The whole traversal is mirrored by spec functions over unbounded integers,
//! so the executable caster's result is pinned exactly: `cast_ray_dir` returns
//! `cast_spec` of its inputs, the recursive first-hit walk.

use vstd::prelude::*;
use crate::fixed::{
    FX_ONE, FX_HALF, FX_INF, sabs, cap_inf, fx_mul_spec, sat_add_spec, fx_mul, fx_div, sat_add,
    floor_div, euclid_mod, lemma_nonneg_div_matches, lemma_floor_div_bounds,
};
use crate::maze::{Maze, EMPTY_CELL};
use crate::framebuffer::{Color, Framebuffer};
use crate::player::Player;
use crate::trig::{norm_angle_spec, sin_fx_spec, cos_fx_spec, norm_angle, sin_fx, cos_fx};

verus! {

/// Abort the grid walk after this many steps and report "no hit"; guards
/// against directions that never leave the grid.
pub const DDA_MAX_STEPS: u32 = 10000;

/// Greatest magnitude accepted for a camera coordinate (world units, fixed).
pub const POS_LIMIT: i64 = 0x4000_0000;

/// Greatest accepted grid side length, in cells.
pub const MAZE_DIM_LIMIT: usize = 0x8000;

/// Greatest accepted cell size, in world units.
pub const BLOCK_LIMIT: usize = 4096;

/// Result of one ray cast. `impact == EMPTY_CELL` means "no hit"; then every
/// other field is zero.
#[derive(Clone, Copy, PartialEq, Eq, Structural, Debug)]
pub struct Intersect {
    /// Perpendicular distance from the camera plane, world units (fixed).
    pub distance: i64,
    /// Material tag of the wall hit, or `EMPTY_CELL` for no hit.
    pub impact: char,
    /// World x of the hit cell's center (fixed).
    pub hit_x: i64,
    /// World y of the hit cell's center (fixed).
    pub hit_y: i64,
    /// 0 when a vertical face was hit (x-step), 1 for a horizontal face.
    pub side: i32,
    /// Sub-cell fraction along the non-stepped axis, in `[0, FX_ONE)`.
    pub wall_x: i64,
}

/// The "no hit" result.
pub open spec fn empty_spec() -> Intersect {
    Intersect { distance: 0, impact: EMPTY_CELL, hit_x: 0, hit_y: 0, side: 0, wall_x: 0 }
}

/// Per-axis step direction: -1 for a negative direction component, else +1.
pub open spec fn step_of(dir: int) -> int {
    if dir < 0 {
        -1
    } else {
        1
    }
}

/// Distance along the ray to cross one full cell on this axis; an axis with
/// zero direction component is never crossed, so its delta is the sentinel
/// `FX_INF`.
pub open spec fn delta_of(dir: int) -> int {
    if dir == 0 {
        FX_INF as int
    } else {
        cap_inf((FX_ONE as int) * (FX_ONE as int) / sabs(dir))
    }
}

/// Distance along the ray from the fractional cell position to the first
/// boundary on this axis.
pub open spec fn init_sd(dir: int, frac: int) -> int {
    if dir == 0 {
        FX_INF as int
    } else if dir < 0 {
        fx_mul_spec(frac, delta_of(dir))
    } else {
        fx_mul_spec((FX_ONE as int) - frac, delta_of(dir))
    }
}

/// Camera position in grid units (fixed), from world units and cell size.
pub open spec fn grid_of(pos: int, block: int) -> int {
    pos / block
}

/// Index of the cell containing a grid-unit coordinate.
pub open spec fn map_of(grid: int) -> int {
    grid / (FX_ONE as int)
}

/// Fractional position within the containing cell, in `[0, FX_ONE)`.
pub open spec fn frac_of(grid: int) -> int {
    grid % (FX_ONE as int)
}

/// Offset, in grid units (fixed), from the camera to the near boundary of the
/// hit cell along the stepped axis.
pub open spec fn num_of(map: int, grid: int, dir: int) -> int {
    map * (FX_ONE as int) - grid + if dir < 0 {
        FX_ONE as int
    } else {
        0
    }
}

/// Perpendicular distance in grid units (fixed): the near-boundary offset
/// divided by the direction component, truncated, saturated at `FX_INF`.
pub open spec fn perp_of(num: int, dir: int) -> int {
    if dir == 0 {
        FX_INF as int
    } else {
        cap_inf(sabs(num) * (FX_ONE as int) / sabs(dir))
    }
}

/// The reported intersection once the walk stands on a non-empty cell
/// `(map_x, map_y)` entered by stepping the axis named by `side`.
pub open spec fn hit_spec(
    maze: Maze,
    grid_x: int,
    grid_y: int,
    dir_x: int,
    dir_y: int,
    block: int,
    map_x: int,
    map_y: int,
    side: int,
) -> Intersect {
    let num = if side == 0 {
        num_of(map_x, grid_x, dir_x)
    } else {
        num_of(map_y, grid_y, dir_y)
    };
    let dir_s = if side == 0 {
        dir_x
    } else {
        dir_y
    };
    let perp = perp_of(num, dir_s);
    let wall_raw = if side == 0 {
        grid_y + fx_mul_spec(perp, dir_y)
    } else {
        grid_x + fx_mul_spec(perp, dir_x)
    };
    Intersect {
        distance: cap_inf(perp * block) as i64,
        impact: maze.cell(map_x, map_y),
        hit_x: ((map_x * (FX_ONE as int) + FX_HALF) * block) as i64,
        hit_y: ((map_y * (FX_ONE as int) + FX_HALF) * block) as i64,
        side: side as i32,
        wall_x: (wall_raw % (FX_ONE as int)) as i64,
    }
}

/// One step of the walk per recursive call: advance along the axis with the
/// smaller accumulated boundary distance, then stop on the first cell that is
/// out of bounds ("no hit") or non-empty (a hit). `fuel` bounds the number of
/// remaining steps.
pub open spec fn dda_result(
    maze: Maze,
    grid_x: int,
    grid_y: int,
    dir_x: int,
    dir_y: int,
    block: int,
    map_x: int,
    map_y: int,
    sd_x: int,
    sd_y: int,
    fuel: nat,
) -> Intersect
    decreases fuel,
{
    if fuel == 0 {
        empty_spec()
    } else if sd_x < sd_y {
        let m2 = map_x + step_of(dir_x);
        if !maze.in_bounds(m2, map_y) {
            empty_spec()
        } else if maze.cell(m2, map_y) != EMPTY_CELL {
            hit_spec(maze, grid_x, grid_y, dir_x, dir_y, block, m2, map_y, 0)
        } else {
            dda_result(
                maze,
                grid_x,
                grid_y,
                dir_x,
                dir_y,
                block,
                m2,
                map_y,
                sat_add_spec(sd_x, delta_of(dir_x)),
                sd_y,
                (fuel - 1) as nat,
            )
        }
    } else {
        let m2 = map_y + step_of(dir_y);
        if !maze.in_bounds(map_x, m2) {
            empty_spec()
        } else if maze.cell(map_x, m2) != EMPTY_CELL {
            hit_spec(maze, grid_x, grid_y, dir_x, dir_y, block, map_x, m2, 1)
        } else {
            dda_result(
                maze,
                grid_x,
                grid_y,
                dir_x,
                dir_y,
                block,
                map_x,
                m2,
                sd_x,
                sat_add_spec(sd_y, delta_of(dir_y)),
                (fuel - 1) as nat,
            )
        }
    }
}

/// What a cast from world position `(pos_x, pos_y)` with direction
/// `(dir_x, dir_y)` returns: the full walk, starting from the camera's cell.
pub open spec fn cast_spec(
    maze: Maze,
    pos_x: int,
    pos_y: int,
    dir_x: int,
    dir_y: int,
    block: int,
) -> Intersect {
    let grid_x = grid_of(pos_x, block);
    let grid_y = grid_of(pos_y, block);
    dda_result(
        maze,
        grid_x,
        grid_y,
        dir_x,
        dir_y,
        block,
        map_of(grid_x),
        map_of(grid_y),
        init_sd(dir_x, frac_of(grid_x)),
        init_sd(dir_y, frac_of(grid_y)),
        DDA_MAX_STEPS as nat,
    )
}

/// Grid, camera position and cell size ranges on which every cast is
/// specified.
pub open spec fn cast_env_ok(maze: Maze, pos_x: int, pos_y: int, block: int) -> bool {
    &&& maze.wf()
    &&& maze.spec_height() <= MAZE_DIM_LIMIT
    &&& maze.spec_width() <= MAZE_DIM_LIMIT
    &&& 1 <= block <= BLOCK_LIMIT
    &&& -POS_LIMIT <= pos_x <= POS_LIMIT
    &&& -POS_LIMIT <= pos_y <= POS_LIMIT
}

/// Inputs on which the directional caster is specified.
pub open spec fn cast_inputs_ok(
    maze: Maze,
    pos_x: int,
    pos_y: int,
    dir_x: int,
    dir_y: int,
    block: int,
) -> bool {
    &&& cast_env_ok(maze, pos_x, pos_y, block)
    &&& -FX_ONE <= dir_x <= FX_ONE
    &&& -FX_ONE <= dir_y <= FX_ONE
}

fn empty() -> (r: Intersect)
    ensures
        r == empty_spec(),
{
    Intersect { distance: 0, impact: EMPTY_CELL, hit_x: 0, hit_y: 0, side: 0, wall_x: 0 }
}

/// Cast one ray by DDA grid traversal from a world-space position along a
/// fixed-point direction vector, returning the first wall hit.
#[verifier::loop_isolation(false)]
pub fn cast_ray_dir(maze: &Maze, pos_x: i64, pos_y: i64, dir_x: i64, dir_y: i64, block_size: usize) -> (r:
    Intersect)
    requires
        cast_inputs_ok(*maze, pos_x as int, pos_y as int, dir_x as int, dir_y as int, block_size as int),
    ensures
        r == cast_spec(*maze, pos_x as int, pos_y as int, dir_x as int, dir_y as int, block_size as int),
{
    let maze_h: usize = maze.height();
    let maze_w: usize = maze.width();
    let block: i64 = block_size as i64;

    let grid_x: i64 = floor_div(pos_x, block);
    let grid_y: i64 = floor_div(pos_y, block);
    let mut map_x: i64 = floor_div(grid_x, FX_ONE);
    let mut map_y: i64 = floor_div(grid_y, FX_ONE);
    let frac_x: i64 = euclid_mod(grid_x, FX_ONE);
    let frac_y: i64 = euclid_mod(grid_y, FX_ONE);

    let delta_x: i64 = if dir_x == 0 {
        FX_INF
    } else {
        fx_div(FX_ONE, if dir_x < 0 { -dir_x } else { dir_x })
    };
    let delta_y: i64 = if dir_y == 0 {
        FX_INF
    } else {
        fx_div(FX_ONE, if dir_y < 0 { -dir_y } else { dir_y })
    };
    assert(delta_x == delta_of(dir_x as int));
    assert(delta_y == delta_of(dir_y as int));

    let step_x: i64 = if dir_x < 0 { -1 } else { 1 };
    let step_y: i64 = if dir_y < 0 { -1 } else { 1 };

    let mut sd_x: i64 = if dir_x == 0 {
        FX_INF
    } else if dir_x < 0 {
        fx_mul(frac_x, delta_x)
    } else {
        fx_mul(FX_ONE - frac_x, delta_x)
    };
    let mut sd_y: i64 = if dir_y == 0 {
        FX_INF
    } else if dir_y < 0 {
        fx_mul(frac_y, delta_y)
    } else {
        fx_mul(FX_ONE - frac_y, delta_y)
    };
    assert(sd_x == init_sd(dir_x as int, frac_of(grid_x as int)));
    assert(sd_y == init_sd(dir_y as int, frac_of(grid_y as int)));
    assert(0 <= sd_x <= FX_INF && 0 <= sd_y <= FX_INF) by {
        lemma_init_sd_bounds(dir_x as int, frac_x as int);
        lemma_init_sd_bounds(dir_y as int, frac_y as int);
    }

    let mut i: u32 = 0;
    while i < DDA_MAX_STEPS
        invariant
            i <= DDA_MAX_STEPS,
            0 <= sd_x <= FX_INF,
            0 <= sd_y <= FX_INF,
            sabs(map_x as int) <= 0x4001 + i,
            sabs(map_y as int) <= 0x4001 + i,
            cast_spec(
                *maze,
                pos_x as int,
                pos_y as int,
                dir_x as int,
                dir_y as int,
                block_size as int,
            ) == dda_result(
                *maze,
                grid_x as int,
                grid_y as int,
                dir_x as int,
                dir_y as int,
                block_size as int,
                map_x as int,
                map_y as int,
                sd_x as int,
                sd_y as int,
                (DDA_MAX_STEPS - i) as nat,
            ),
        decreases DDA_MAX_STEPS - i,
    {
        let side: i64;
        if sd_x < sd_y {
            sd_x = sat_add(sd_x, delta_x);
            map_x = map_x + step_x;
            side = 0;
        } else {
            sd_y = sat_add(sd_y, delta_y);
            map_y = map_y + step_y;
            side = 1;
        }

        if map_x < 0 || map_y < 0 || (map_y as usize) >= maze_h || (map_x as usize) >= maze_w {
            return empty();
        }

        let cell: char = maze.at(map_x as usize, map_y as usize);
        if cell != EMPTY_CELL {
            return make_hit(maze, grid_x, grid_y, dir_x, dir_y, block, map_x, map_y, side);
        }
        i = i + 1;
    }
    empty()
}

/// Bounds for the initial boundary distances.
proof fn lemma_init_sd_bounds(dir: int, frac: int)
    requires
        0 <= frac < FX_ONE,
    ensures
        0 <= init_sd(dir, frac) <= FX_INF,
{
    if dir != 0 {
        let d = delta_of(dir);
        assert(0 <= d <= FX_INF);
        if dir < 0 {
            assert(0 <= fx_mul_spec(frac, d) <= FX_INF);
        } else {
            assert(0 <= fx_mul_spec((FX_ONE as int) - frac, d) <= FX_INF);
        }
    }
}

/// Build the hit record for a non-empty cell entered by stepping `side`.
#[verifier::loop_isolation(false)]
fn make_hit(
    maze: &Maze,
    grid_x: i64,
    grid_y: i64,
    dir_x: i64,
    dir_y: i64,
    block: i64,
    map_x: i64,
    map_y: i64,
    side: i64,
) -> (r: Intersect)
    requires
        maze.wf(),
        maze.in_bounds(map_x as int, map_y as int),
        side == 0 || side == 1,
        1 <= block <= BLOCK_LIMIT,
        -POS_LIMIT <= grid_x <= POS_LIMIT,
        -POS_LIMIT <= grid_y <= POS_LIMIT,
        -FX_ONE <= dir_x <= FX_ONE,
        -FX_ONE <= dir_y <= FX_ONE,
        sabs(map_x as int) <= 0x8000,
        sabs(map_y as int) <= 0x8000,
    ensures
        r == hit_spec(
            *maze,
            grid_x as int,
            grid_y as int,
            dir_x as int,
            dir_y as int,
            block as int,
            map_x as int,
            map_y as int,
            side as int,
        ),
{
    assert(sabs(map_x as int * FX_ONE) <= 0x8000_0000 && sabs(map_y as int * FX_ONE)
        <= 0x8000_0000) by (nonlinear_arith)
        requires
            sabs(map_x as int) <= 0x8000,
            sabs(map_y as int) <= 0x8000,
    ;
    let num: i64 = if side == 0 {
        map_x * FX_ONE - grid_x + (if dir_x < 0 { FX_ONE } else { 0 })
    } else {
        map_y * FX_ONE - grid_y + (if dir_y < 0 { FX_ONE } else { 0 })
    };
    let dir_s: i64 = if side == 0 { dir_x } else { dir_y };
    let perp: i64 = if dir_s == 0 {
        FX_INF
    } else {
        fx_div(if num < 0 { -num } else { num }, if dir_s < 0 { -dir_s } else { dir_s })
    };
    assert(perp == perp_of(num as int, dir_s as int));
    assert(0 <= perp <= FX_INF);

    let wall_raw: i64 = if side == 0 {
        grid_y + fx_mul(perp, dir_y)
    } else {
        grid_x + fx_mul(perp, dir_x)
    };
    let wall_x: i64 = euclid_mod(wall_raw, FX_ONE);

    assert(perp * block <= FX_INF * (BLOCK_LIMIT as int)) by (nonlinear_arith)
        requires
            0 <= perp <= FX_INF,
            1 <= block <= BLOCK_LIMIT,
    ;
    let dist_raw: i64 = perp * block;
    let distance: i64 = if dist_raw > FX_INF { FX_INF } else { dist_raw };

    let cx: i64 = map_x * FX_ONE + FX_HALF;
    let cy: i64 = map_y * FX_ONE + FX_HALF;
    assert(sabs(cx as int * block) <= 0x8000_8000 * (BLOCK_LIMIT as int) && sabs(
        cy as int * block,
    ) <= 0x8000_8000 * (BLOCK_LIMIT as int)) by (nonlinear_arith)
        requires
            sabs(cx as int) <= 0x8000_8000,
            sabs(cy as int) <= 0x8000_8000,
            1 <= block <= BLOCK_LIMIT,
    ;
    let hit_x: i64 = cx * block;
    let hit_y: i64 = cy * block;

    Intersect {
        distance,
        impact: maze.at(map_x as usize, map_y as usize),
        hit_x,
        hit_y,
        side: side as i32,
        wall_x,
    }
}

/// The column index of the hit cell, recovered from the reported cell-center
/// coordinate.
pub open spec fn hit_map_x(r: Intersect, block: int) -> int {
    (r.hit_x as int / block - FX_HALF) / (FX_ONE as int)
}

/// The row index of the hit cell, recovered from the reported cell-center
/// coordinate.
pub open spec fn hit_map_y(r: Intersect, block: int) -> int {
    (r.hit_y as int / block - FX_HALF) / (FX_ONE as int)
}

/// What a hit record guarantees: the stepped side is reported as given, the
/// distance is the non-negative near-boundary crossing distance (saturated at
/// `FX_INF`), the texture fraction lies in `[0, FX_ONE)`, and the hit cell is
/// recoverable from the reported cell center.
proof fn lemma_hit_spec_props(
    maze: Maze,
    grid_x: int,
    grid_y: int,
    dir_x: int,
    dir_y: int,
    block: int,
    hx: int,
    hy: int,
    side: int,
)
    requires
        maze.wf(),
        maze.spec_height() <= MAZE_DIM_LIMIT,
        maze.spec_width() <= MAZE_DIM_LIMIT,
        1 <= block <= BLOCK_LIMIT,
        maze.in_bounds(hx, hy),
        side == 0 || side == 1,
    ensures
        ({
            let h = hit_spec(maze, grid_x, grid_y, dir_x, dir_y, block, hx, hy, side);
            let num = if side == 0 {
                num_of(hx, grid_x, dir_x)
            } else {
                num_of(hy, grid_y, dir_y)
            };
            let dir_s = if side == 0 {
                dir_x
            } else {
                dir_y
            };
            &&& h.side == side
            &&& 0 <= h.distance <= FX_INF
            &&& 0 <= h.wall_x < FX_ONE
            &&& hit_map_x(h, block) == hx
            &&& hit_map_y(h, block) == hy
            &&& h.impact == maze.cell(hx, hy)
            &&& (dir_s != 0 ==> h.distance * sabs(dir_s) <= block * (sabs(num) * FX_ONE))
        }),
{
    let num = if side == 0 {
        num_of(hx, grid_x, dir_x)
    } else {
        num_of(hy, grid_y, dir_y)
    };
    let dir_s = if side == 0 {
        dir_x
    } else {
        dir_y
    };
    let perp = perp_of(num, dir_s);
    if dir_s != 0 {
        lemma_nonneg_div_matches(sabs(num) * (FX_ONE as int), sabs(dir_s));
        assert(sabs(num) * (FX_ONE as int) >= 0) by (nonlinear_arith)
            requires
                sabs(num) >= 0,
        ;
    }
    assert(0 <= perp <= FX_INF);
    assert(0 <= perp * block <= FX_INF * (BLOCK_LIMIT as int)) by (nonlinear_arith)
        requires
            0 <= perp <= FX_INF,
            1 <= block <= BLOCK_LIMIT,
    ;
    let wall_raw = if side == 0 {
        grid_y + fx_mul_spec(perp, dir_y)
    } else {
        grid_x + fx_mul_spec(perp, dir_x)
    };
    lemma_floor_div_bounds(wall_raw, FX_ONE as int);

    let cx = hx * (FX_ONE as int) + FX_HALF;
    let cy = hy * (FX_ONE as int) + FX_HALF;
    assert(0 <= hx * (FX_ONE as int) <= 0x8000_0000 && 0 <= hy * (FX_ONE as int)
        <= 0x8000_0000) by (nonlinear_arith)
        requires
            0 <= hx <= MAZE_DIM_LIMIT,
            0 <= hy <= MAZE_DIM_LIMIT,
    ;
    assert(0 <= cx * block <= 0x8000_8000 * (BLOCK_LIMIT as int) && 0 <= cy * block
        <= 0x8000_8000 * (BLOCK_LIMIT as int)) by (nonlinear_arith)
        requires
            0 <= cx <= 0x8000_8000,
            0 <= cy <= 0x8000_8000,
            1 <= block <= BLOCK_LIMIT,
    ;
    assert((cx * block) / block == cx && (cy * block) / block == cy) by (nonlinear_arith)
        requires
            block >= 1,
    ;
    assert((hx * (FX_ONE as int)) / (FX_ONE as int) == hx && (hy * (FX_ONE as int)) / (
    FX_ONE as int) == hy) by (nonlinear_arith);
    if dir_s != 0 {
        let q = sabs(num) * (FX_ONE as int) / sabs(dir_s);
        assert(q * sabs(dir_s) <= sabs(num) * (FX_ONE as int) && 0 <= q) by (nonlinear_arith)
            requires
                1 <= sabs(dir_s),
                0 <= sabs(num),
                q == sabs(num) * (FX_ONE as int) / sabs(dir_s),
        ;
        assert(perp * sabs(dir_s) <= q * sabs(dir_s)) by (nonlinear_arith)
            requires
                0 <= perp <= q,
                0 <= sabs(dir_s),
        ;
        assert(cap_inf(perp * block) * sabs(dir_s) <= (perp * sabs(dir_s)) * block) by (nonlinear_arith)
            requires
                0 <= cap_inf(perp * block) <= perp * block,
                0 <= sabs(dir_s),
                0 <= perp,
                1 <= block,
        ;
        assert((q * sabs(dir_s)) * block <= block * (sabs(num) * (FX_ONE as int))
            && (perp * sabs(dir_s)) * block <= (q * sabs(dir_s)) * block) by (nonlinear_arith)
            requires
                q * sabs(dir_s) <= sabs(num) * (FX_ONE as int),
                perp * sabs(dir_s) <= q * sabs(dir_s),
                1 <= block,
        ;
        assert(0 <= perp * block) by (nonlinear_arith)
            requires
                0 <= perp,
                0 <= block,
        ;
    }
}

/// The walk only ever reports a hit record built from some in-bounds,
/// non-empty cell; every hit satisfies the hit-record guarantees.
proof fn lemma_dda_hit_props(
    maze: Maze,
    grid_x: int,
    grid_y: int,
    dir_x: int,
    dir_y: int,
    block: int,
    map_x: int,
    map_y: int,
    sd_x: int,
    sd_y: int,
    fuel: nat,
)
    requires
        maze.wf(),
        maze.spec_height() <= MAZE_DIM_LIMIT,
        maze.spec_width() <= MAZE_DIM_LIMIT,
        1 <= block <= BLOCK_LIMIT,
    ensures
        ({
            let r = dda_result(
                maze, grid_x, grid_y, dir_x, dir_y, block, map_x, map_y, sd_x, sd_y, fuel,
            );
            r.impact != EMPTY_CELL ==> {
                &&& r.side == 0 || r.side == 1
                &&& 0 <= r.distance <= FX_INF
                &&& 0 <= r.wall_x < FX_ONE
                &&& maze.in_bounds(hit_map_x(r, block), hit_map_y(r, block))
                &&& maze.cell(hit_map_x(r, block), hit_map_y(r, block)) == r.impact
                &&& r == hit_spec(
                    maze,
                    grid_x,
                    grid_y,
                    dir_x,
                    dir_y,
                    block,
                    hit_map_x(r, block),
                    hit_map_y(r, block),
                    r.side as int,
                )
                &&& ({
                    let num = if r.side == 0 {
                        num_of(hit_map_x(r, block), grid_x, dir_x)
                    } else {
                        num_of(hit_map_y(r, block), grid_y, dir_y)
                    };
                    let dir_s = if r.side == 0 {
                        dir_x
                    } else {
                        dir_y
                    };
                    dir_s != 0 ==> r.distance * sabs(dir_s) <= block * (sabs(num) * FX_ONE)
                })
            }
        }),
    decreases fuel,
{
    if fuel > 0 {
        if sd_x < sd_y {
            let m2 = map_x + step_of(dir_x);
            if !maze.in_bounds(m2, map_y) {
            } else if maze.cell(m2, map_y) != EMPTY_CELL {
                lemma_hit_spec_props(maze, grid_x, grid_y, dir_x, dir_y, block, m2, map_y, 0);
            } else {
                lemma_dda_hit_props(
                    maze,
                    grid_x,
                    grid_y,
                    dir_x,
                    dir_y,
                    block,
                    m2,
                    map_y,
                    sat_add_spec(sd_x, delta_of(dir_x)),
                    sd_y,
                    (fuel - 1) as nat,
                );
            }
        } else {
            let m2 = map_y + step_of(dir_y);
            if !maze.in_bounds(map_x, m2) {
            } else if maze.cell(map_x, m2) != EMPTY_CELL {
                lemma_hit_spec_props(maze, grid_x, grid_y, dir_x, dir_y, block, map_x, m2, 1);
            } else {
                lemma_dda_hit_props(
                    maze,
                    grid_x,
                    grid_y,
                    dir_x,
                    dir_y,
                    block,
                    map_x,
                    m2,
                    sd_x,
                    sat_add_spec(sd_y, delta_of(dir_y)),
                    (fuel - 1) as nat,
                );
            }
        }
    }
}

/// Law: every reported hit has `side` in `{0, 1}`, a distance in
/// `[0, FX_INF]`, a texture fraction `wall_x` in `[0, FX_ONE)`, and is
/// exactly the near-boundary crossing record of an in-bounds non-empty cell
/// (so the distance never exceeds the ray distance to that cell's near edge).
pub proof fn lemma_cast_hit_props(
    maze: Maze,
    pos_x: int,
    pos_y: int,
    dir_x: int,
    dir_y: int,
    block: int,
)
    requires
        cast_inputs_ok(maze, pos_x, pos_y, dir_x, dir_y, block),
    ensures
        ({
            let r = cast_spec(maze, pos_x, pos_y, dir_x, dir_y, block);
            r.impact != EMPTY_CELL ==> {
                &&& r.side == 0 || r.side == 1
                &&& 0 <= r.distance <= FX_INF
                &&& 0 <= r.wall_x < FX_ONE
                &&& maze.in_bounds(hit_map_x(r, block), hit_map_y(r, block))
                &&& maze.cell(hit_map_x(r, block), hit_map_y(r, block)) == r.impact
                &&& r == hit_spec(
                    maze,
                    grid_of(pos_x, block),
                    grid_of(pos_y, block),
                    dir_x,
                    dir_y,
                    block,
                    hit_map_x(r, block),
                    hit_map_y(r, block),
                    r.side as int,
                )
                &&& ({
                    // The reported distance never exceeds the ray length to
                    // the hit cell's near boundary: it is the truncated
                    // quotient of that boundary offset by the direction.
                    let num = if r.side == 0 {
                        num_of(hit_map_x(r, block), grid_of(pos_x, block), dir_x)
                    } else {
                        num_of(hit_map_y(r, block), grid_of(pos_y, block), dir_y)
                    };
                    let dir_s = if r.side == 0 {
                        dir_x
                    } else {
                        dir_y
                    };
                    dir_s != 0 ==> r.distance * sabs(dir_s) <= block * (sabs(num) * FX_ONE)
                })
            }
        }),
{
    let grid_x = grid_of(pos_x, block);
    let grid_y = grid_of(pos_y, block);
    lemma_dda_hit_props(
        maze,
        grid_x,
        grid_y,
        dir_x,
        dir_y,
        block,
        map_of(grid_x),
        map_of(grid_y),
        init_sd(dir_x, frac_of(grid_x)),
        init_sd(dir_y, frac_of(grid_y)),
        DDA_MAX_STEPS as nat,
    );
}

/// Law: a cast through a grid with zero rows reports "no hit", whatever the
/// position and direction.
pub proof fn lemma_cast_empty_grid(
    maze: Maze,
    pos_x: int,
    pos_y: int,
    dir_x: int,
    dir_y: int,
    block: int,
)
    requires
        maze.spec_height() == 0,
    ensures
        cast_spec(maze, pos_x, pos_y, dir_x, dir_y, block) == empty_spec(),
{
    assert(forall|x: int, y: int| !maze.in_bounds(x, y));
}

/// While the y boundary distance stays at the sentinel and the x boundary
/// distance stays strictly below it, only the x axis is ever stepped.
proof fn lemma_dda_zero_y(
    maze: Maze,
    grid_x: int,
    grid_y: int,
    dir_x: int,
    dir_y: int,
    block: int,
    map_x: int,
    map_y: int,
    sd_x: int,
    sd_y: int,
    fuel: nat,
)
    requires
        maze.wf(),
        maze.spec_height() <= MAZE_DIM_LIMIT,
        maze.spec_width() <= MAZE_DIM_LIMIT,
        1 <= block <= BLOCK_LIMIT,
        dir_y == 0,
        dir_x != 0,
        sd_y == FX_INF,
        0 <= sd_x,
        sd_x + fuel * delta_of(dir_x) < FX_INF,
    ensures
        ({
            let r = dda_result(
                maze, grid_x, grid_y, dir_x, dir_y, block, map_x, map_y, sd_x, sd_y, fuel,
            );
            r.impact != EMPTY_CELL ==> r.side == 0 && hit_map_y(r, block) == map_y
        }),
    decreases fuel,
{
    if fuel > 0 {
        let delta = delta_of(dir_x);
        lemma_nonneg_div_matches((FX_ONE as int) * (FX_ONE as int), sabs(dir_x));
        assert(fuel * delta >= 1 * delta && (sd_x + delta) + (fuel - 1) * delta == sd_x + fuel
            * delta) by (nonlinear_arith)
            requires
                fuel >= 1,
                delta >= 0,
        ;
        assert(sd_x < sd_y);
        let m2 = map_x + step_of(dir_x);
        if !maze.in_bounds(m2, map_y) {
        } else if maze.cell(m2, map_y) != EMPTY_CELL {
            lemma_hit_spec_props(maze, grid_x, grid_y, dir_x, dir_y, block, m2, map_y, 0);
        } else {
            lemma_dda_zero_y(
                maze,
                grid_x,
                grid_y,
                dir_x,
                dir_y,
                block,
                m2,
                map_y,
                sat_add_spec(sd_x, delta),
                sd_y,
                (fuel - 1) as nat,
            );
        }
    }
}

/// Mirror image: while the x boundary distance stays at the sentinel and the
/// y boundary distance stays strictly below it, only the y axis is stepped.
proof fn lemma_dda_zero_x(
    maze: Maze,
    grid_x: int,
    grid_y: int,
    dir_x: int,
    dir_y: int,
    block: int,
    map_x: int,
    map_y: int,
    sd_x: int,
    sd_y: int,
    fuel: nat,
)
    requires
        maze.wf(),
        maze.spec_height() <= MAZE_DIM_LIMIT,
        maze.spec_width() <= MAZE_DIM_LIMIT,
        1 <= block <= BLOCK_LIMIT,
        dir_x == 0,
        dir_y != 0,
        sd_x == FX_INF,
        0 <= sd_y,
        sd_y + fuel * delta_of(dir_y) < FX_INF,
    ensures
        ({
            let r = dda_result(
                maze, grid_x, grid_y, dir_x, dir_y, block, map_x, map_y, sd_x, sd_y, fuel,
            );
            r.impact != EMPTY_CELL ==> r.side == 1 && hit_map_x(r, block) == map_x
        }),
    decreases fuel,
{
    if fuel > 0 {
        let delta = delta_of(dir_y);
        lemma_nonneg_div_matches((FX_ONE as int) * (FX_ONE as int), sabs(dir_y));
        assert(fuel * delta >= 1 * delta && (sd_y + delta) + (fuel - 1) * delta == sd_y + fuel
            * delta) by (nonlinear_arith)
            requires
                fuel >= 1,
                delta >= 0,
        ;
        assert(!(sd_x < sd_y));
        let m2 = map_y + step_of(dir_y);
        if !maze.in_bounds(map_x, m2) {
        } else if maze.cell(map_x, m2) != EMPTY_CELL {
            lemma_hit_spec_props(maze, grid_x, grid_y, dir_x, dir_y, block, map_x, m2, 1);
        } else {
            lemma_dda_zero_x(
                maze,
                grid_x,
                grid_y,
                dir_x,
                dir_y,
                block,
                map_x,
                m2,
                sd_x,
                sat_add_spec(sd_y, delta),
                (fuel - 1) as nat,
            );
        }
    }
}

/// The initial boundary distance never exceeds one whole-cell delta, and a
/// nonzero direction component keeps its delta at or below one cell of
/// distance per unit direction.
proof fn lemma_axis_budget(dir: int, frac: int)
    requires
        dir != 0,
        0 <= frac < FX_ONE,
    ensures
        0 <= delta_of(dir) <= (FX_ONE as int) * (FX_ONE as int),
        0 <= init_sd(dir, frac) <= delta_of(dir),
        init_sd(dir, frac) + (DDA_MAX_STEPS as int) * delta_of(dir) < FX_INF,
{
    let delta = delta_of(dir);
    lemma_nonneg_div_matches((FX_ONE as int) * (FX_ONE as int), sabs(dir));
    let f = if dir < 0 {
        frac
    } else {
        (FX_ONE as int) - frac
    };
    assert(f * delta <= (FX_ONE as int) * delta && 0 <= f * delta) by (nonlinear_arith)
        requires
            0 <= f <= FX_ONE,
            0 <= delta,
    ;
    assert(f * delta / (FX_ONE as int) <= (FX_ONE as int) * delta / (FX_ONE as int)
        && (FX_ONE as int) * delta / (FX_ONE as int) == delta) by (nonlinear_arith)
        requires
            f * delta <= (FX_ONE as int) * delta,
            0 <= f * delta,
    ;
    lemma_nonneg_div_matches(f * delta, FX_ONE as int);
    assert(init_sd(dir, frac) == fx_mul_spec(f, delta));
    assert((DDA_MAX_STEPS as int) * delta <= (DDA_MAX_STEPS as int) * ((FX_ONE as int) * (
    FX_ONE as int))) by (nonlinear_arith)
        requires
            0 <= delta <= (FX_ONE as int) * (FX_ONE as int),
    ;
}

/// Law: a ray whose direction has zero y component never steps the y axis:
/// any hit is on a vertical face (`side == 0`) and lies in the camera's own
/// grid row. Mirrored for a zero x component. (A direction with both
/// components zero steps the y axis, so the hypothesis on the other
/// component cannot be dropped.)
pub proof fn lemma_cast_parallel_x(maze: Maze, pos_x: int, pos_y: int, dir_x: int, block: int)
    requires
        cast_inputs_ok(maze, pos_x, pos_y, dir_x, 0, block),
        dir_x != 0,
    ensures
        ({
            let r = cast_spec(maze, pos_x, pos_y, dir_x, 0, block);
            r.impact != EMPTY_CELL ==> r.side == 0 && hit_map_y(r, block) == map_of(
                grid_of(pos_y, block),
            )
        }),
{
    let grid_x = grid_of(pos_x, block);
    let grid_y = grid_of(pos_y, block);
    lemma_floor_div_bounds(grid_x, FX_ONE as int);
    lemma_axis_budget(dir_x, frac_of(grid_x));
    lemma_dda_zero_y(
        maze,
        grid_x,
        grid_y,
        dir_x,
        0,
        block,
        map_of(grid_x),
        map_of(grid_y),
        init_sd(dir_x, frac_of(grid_x)),
        init_sd(0, frac_of(grid_y)),
        DDA_MAX_STEPS as nat,
    );
}

/// Law: a ray whose direction has zero x component never steps the x axis:
/// any hit is on a horizontal face (`side == 1`) and lies in the camera's own
/// grid column.
pub proof fn lemma_cast_parallel_y(maze: Maze, pos_x: int, pos_y: int, dir_y: int, block: int)
    requires
        cast_inputs_ok(maze, pos_x, pos_y, 0, dir_y, block),
        dir_y != 0,
    ensures
        ({
            let r = cast_spec(maze, pos_x, pos_y, 0, dir_y, block);
            r.impact != EMPTY_CELL ==> r.side == 1 && hit_map_x(r, block) == map_of(
                grid_of(pos_x, block),
            )
        }),
{
    let grid_x = grid_of(pos_x, block);
    let grid_y = grid_of(pos_y, block);
    lemma_floor_div_bounds(grid_y, FX_ONE as int);
    lemma_axis_budget(dir_y, frac_of(grid_y));
    lemma_dda_zero_x(
        maze,
        grid_x,
        grid_y,
        0,
        dir_y,
        block,
        map_of(grid_x),
        map_of(grid_y),
        init_sd(0, frac_of(grid_x)),
        init_sd(dir_y, frac_of(grid_y)),
        DDA_MAX_STEPS as nat,
    );
}

/// Law: every reported hit has its sub-cell texture fraction in
/// `[0, FX_ONE)`.
pub proof fn lemma_cast_wall_x_range(
    maze: Maze,
    pos_x: int,
    pos_y: int,
    dir_x: int,
    dir_y: int,
    block: int,
)
    requires
        cast_inputs_ok(maze, pos_x, pos_y, dir_x, dir_y, block),
    ensures
        ({
            let r = cast_spec(maze, pos_x, pos_y, dir_x, dir_y, block);
            r.impact != EMPTY_CELL ==> 0 <= r.wall_x < FX_ONE
        }),
{
    lemma_cast_hit_props(maze, pos_x, pos_y, dir_x, dir_y, block);
}

/// Step budget of the debug ray march, in world units.
pub const DEBUG_MAX_DIST: i64 = 8000;

/// The debug ray march: from step `k` on, advance one world unit at a time
/// along the direction and report the first non-empty cell, with the
/// Euclidean march distance, or "no hit" once a coordinate leaves the world
/// or the budget is spent.
pub open spec fn debug_result(
    maze: Maze,
    pos_x: int,
    pos_y: int,
    dir_x: int,
    dir_y: int,
    block: int,
    k: nat,
) -> Intersect
    decreases (DEBUG_MAX_DIST + 1) - k,
{
    let xw = pos_x + dir_x * k;
    let yw = pos_y + dir_y * k;
    if xw < 0 || yw < 0 || k > DEBUG_MAX_DIST {
        empty_spec()
    } else {
        let g = (FX_ONE as int) * block;
        let i = xw / g;
        let j = yw / g;
        if !maze.in_bounds(i, j) {
            empty_spec()
        } else if maze.cell(i, j) != EMPTY_CELL {
            Intersect {
                distance: (k * (FX_ONE as int)) as i64,
                impact: maze.cell(i, j),
                hit_x: xw as i64,
                hit_y: yw as i64,
                side: 0,
                wall_x: 0,
            }
        } else {
            debug_result(maze, pos_x, pos_y, dir_x, dir_y, block, k + 1)
        }
    }
}

/// The direction vector of a ray at absolute angle `angle`.
pub open spec fn angle_dir_x_spec(angle: int) -> int {
    cos_fx_spec(angle)
}

pub open spec fn angle_dir_y_spec(angle: int) -> int {
    sin_fx_spec(norm_angle_spec(angle))
}

/// Debug 2D ray march: walk the ray one world unit at a time, drawing its
/// path into the frame, and report the first non-empty cell with the march
/// distance instead of the perpendicular one.
#[verifier::loop_isolation(false)]
pub fn cast_ray_debug(
    fb: &mut Framebuffer,
    maze: &Maze,
    player: &Player,
    a: i64,
    block_size: usize,
) -> (r: Intersect)
    requires
        old(fb).wf(),
        cast_env_ok(*maze, player.pos.x as int, player.pos.y as int, block_size as int),
        -FX_INF + 0x8_0000 <= a <= FX_INF,
    ensures
        final(fb).wf(),
        final(fb).width == old(fb).width,
        final(fb).height == old(fb).height,
        final(fb).background_spec() == old(fb).background_spec(),
        final(fb).current_spec() == (Color { r: 245, g: 245, b: 245, a: 255 }),
        forall|qx: int, qy: int|
            0 <= qx < old(fb).width && 0 <= qy < old(fb).height ==> final(fb).pixel(qx, qy) == old(
                fb,
            ).pixel(qx, qy) || final(fb).pixel(qx, qy) == (Color { r: 245, g: 245, b: 245, a: 255 }),
        r == debug_result(
            *maze,
            player.pos.x as int,
            player.pos.y as int,
            angle_dir_x_spec(a as int),
            angle_dir_y_spec(a as int),
            block_size as int,
            0,
        ),
{
    let dir_x: i64 = cos_fx(a);
    let dir_y: i64 = sin_fx(norm_angle(a));
    let g: i64 = FX_ONE * (block_size as i64);
    let maze_h: usize = maze.height();
    let maze_w: usize = maze.width();
    fb.set_current_color(Color { r: 245, g: 245, b: 245, a: 255 });

    let mut k: i64 = 0;
    while k <= DEBUG_MAX_DIST
        invariant
            0 <= k <= DEBUG_MAX_DIST + 1,
            fb.wf(),
            fb.width == old(fb).width,
            fb.height == old(fb).height,
            fb.background_spec() == old(fb).background_spec(),
            fb.current_spec() == (Color { r: 245, g: 245, b: 245, a: 255 }),
            forall|qx: int, qy: int|
                0 <= qx < old(fb).width && 0 <= qy < old(fb).height ==> fb.pixel(qx, qy) == old(
                    fb,
                ).pixel(qx, qy) || fb.pixel(qx, qy) == (Color {
                    r: 245,
                    g: 245,
                    b: 245,
                    a: 255,
                }),
            debug_result(
                *maze,
                player.pos.x as int,
                player.pos.y as int,
                dir_x as int,
                dir_y as int,
                block_size as int,
                0,
            ) == debug_result(
                *maze,
                player.pos.x as int,
                player.pos.y as int,
                dir_x as int,
                dir_y as int,
                block_size as int,
                k as nat,
            ),
        decreases DEBUG_MAX_DIST + 1 - k,
    {
        proof {
            assert(sabs((dir_x as int) * (k as int)) <= (FX_ONE as int) * (DEBUG_MAX_DIST as int)
                && sabs((dir_y as int) * (k as int)) <= (FX_ONE as int) * (
            DEBUG_MAX_DIST as int)) by (nonlinear_arith)
                requires
                    sabs(dir_x as int) <= FX_ONE,
                    sabs(dir_y as int) <= FX_ONE,
                    0 <= k <= DEBUG_MAX_DIST,
            ;
        }
        let xw: i64 = player.pos.x + dir_x * k;
        let yw: i64 = player.pos.y + dir_y * k;
        if xw < 0 || yw < 0 {
            return empty();
        }
        let i: i64 = floor_div(xw, g);
        let j: i64 = floor_div(yw, g);
        if (j as u64) >= (maze_h as u64) || (i as u64) >= (maze_w as u64) {
            return empty();
        }
        let cell: char = maze.at(i as usize, j as usize);
        if cell != EMPTY_CELL {
            return Intersect {
                distance: k * FX_ONE,
                impact: cell,
                hit_x: xw,
                hit_y: yw,
                side: 0,
                wall_x: 0,
            };
        }
        let px: i64 = floor_div(xw, FX_ONE);
        let py: i64 = floor_div(yw, FX_ONE);
        if px < (fb.width as i64) && py < (fb.height as i64) {
            let ghost prev = *fb;
            fb.set_pixel(px as u32, py as u32);
            proof {
                assert forall|qx: int, qy: int|
                    0 <= qx < old(fb).width && 0 <= qy < old(fb).height implies fb.pixel(qx, qy)
                    == old(fb).pixel(qx, qy) || fb.pixel(qx, qy) == (Color {
                    r: 245,
                    g: 245,
                    b: 245,
                    a: 255,
                }) by {
                    if prev.pix_in_bounds(px as int, py as int) {
                        crate::framebuffer::lemma_row_major_in_range(
                            qx,
                            qy,
                            prev.width as int,
                            prev.height as int,
                        );
                        crate::framebuffer::lemma_row_major_in_range(
                            px as int,
                            py as int,
                            prev.width as int,
                            prev.height as int,
                        );
                        if qy * (prev.width as int) + qx == (py as int) * (prev.width as int) + (
                        px as int) {
                            assert(fb.pixel(qx, qy) == prev.current_spec());
                        } else {
                            assert(fb.pixel(qx, qy) == prev.pixel(qx, qy));
                        }
                    } else {
                        assert(fb.pixels() == prev.pixels());
                        assert(fb.pixel(qx, qy) == prev.pixel(qx, qy));
                    }
                }
            }
        }
        k = k + 1;
    }
    empty()
}

/// Cast one ray at absolute angle `a`: the DDA grid walk, or the drawing
/// debug march when `draw_line` is set. The plain cast leaves the frame
/// untouched.
pub fn cast_ray(
    fb: &mut Framebuffer,
    maze: &Maze,
    player: &Player,
    a: i64,
    block_size: usize,
    draw_line: bool,
) -> (r: Intersect)
    requires
        old(fb).wf(),
        cast_env_ok(*maze, player.pos.x as int, player.pos.y as int, block_size as int),
        -FX_INF + 0x8_0000 <= a <= FX_INF,
    ensures
        final(fb).wf(),
        final(fb).width == old(fb).width,
        final(fb).height == old(fb).height,
        final(fb).background_spec() == old(fb).background_spec(),
        !draw_line ==> *final(fb) == *old(fb) && r == cast_spec(
            *maze,
            player.pos.x as int,
            player.pos.y as int,
            angle_dir_x_spec(a as int),
            angle_dir_y_spec(a as int),
            block_size as int,
        ),
        draw_line ==> final(fb).current_spec() == (Color { r: 245, g: 245, b: 245, a: 255 })
            && (forall|qx: int, qy: int|
            0 <= qx < old(fb).width && 0 <= qy < old(fb).height ==> final(fb).pixel(qx, qy) == old(
                fb,
            ).pixel(qx, qy) || final(fb).pixel(qx, qy) == (Color {
                r: 245,
                g: 245,
                b: 245,
                a: 255,
            })),
        draw_line ==> r == debug_result(
            *maze,
            player.pos.x as int,
            player.pos.y as int,
            angle_dir_x_spec(a as int),
            angle_dir_y_spec(a as int),
            block_size as int,
            0,
        ),
{
    if draw_line {
        return cast_ray_debug(fb, maze, player, a, block_size);
    }
    let dir_x: i64 = cos_fx(a);
    let dir_y: i64 = sin_fx(norm_angle(a));
    cast_ray_dir(maze, player.pos.x, player.pos.y, dir_x, dir_y, block_size)
}

} // verus!
