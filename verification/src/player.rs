//! The camera/player: position, heading and field of view, plus per-frame
//! movement. Key and mouse state arrive as plain values; every attempted
//! move is taken only when its target passes the five-point collision test.

use vstd::prelude::*;
use crate::fixed::{FX_ONE, FX_INF, fx_mul_spec, fx_mul, floor_div, lemma_fx_mul_unit_bound};
use crate::maze::{Maze, EMPTY_CELL};
use crate::trig::{norm_angle_spec, sin_fx_spec, cos_fx_spec, norm_angle, sin_fx, cos_fx, PI_FX};
use crate::caster::{MAZE_DIM_LIMIT, BLOCK_LIMIT};

verus! {

/// A 2D point or vector in fixed-point world units.
#[derive(Clone, Copy, PartialEq, Eq, Structural, Debug)]
pub struct Vec2Fx {
    pub x: i64,
    pub y: i64,
}

/// The camera: world position, heading in fixed-point radians normalized to
/// `(-PI_FX, PI_FX]`, and horizontal field of view in fixed-point radians.
#[derive(Clone, Copy, PartialEq, Eq, Structural, Debug)]
pub struct Player {
    pub pos: Vec2Fx,
    pub a: i64,
    pub fov: i64,
}

/// Forward speed, world units per second (fixed).
pub const MOVE_SPEED_FX: i64 = 0x24_0000;

/// Strafe speed, world units per second (fixed).
pub const LATERAL_SPEED_FX: i64 = 0x24_0000;

/// Heading change per mouse count, fixed-point radians (0.0025 rad).
pub const MOUSE_SENS_FX: i64 = 164;

/// Collision radius around the player, world units (fixed).
pub const PLAYER_RADIUS_FX: i64 = 0xC_0000;

/// Positions are accepted well inside the caster's coordinate range so that
/// one frame of movement cannot leave it.
pub const PLAYER_POS_LIMIT: i64 = 0x3000_0000;

/// A world point is walkable when it is non-negative, inside the grid, and
/// on an empty cell.
pub open spec fn point_walkable(maze: Maze, block: int, px: int, py: int) -> bool {
    let g = (FX_ONE as int) * block;
    &&& px >= 0
    &&& py >= 0
    &&& maze.in_bounds(px / g, py / g)
    &&& maze.cell(px / g, py / g) == EMPTY_CELL
}

/// The five-point hitbox test: the center and the four axis-aligned points
/// at distance `radius` must all be walkable.
pub open spec fn colision_spec(maze: Maze, block: int, x: int, y: int, radius: int) -> bool {
    &&& point_walkable(maze, block, x, y)
    &&& point_walkable(maze, block, x + radius, y)
    &&& point_walkable(maze, block, x - radius, y)
    &&& point_walkable(maze, block, x, y + radius)
    &&& point_walkable(maze, block, x, y - radius)
}

/// Inputs on which the collision test is specified.
pub open spec fn colision_inputs_ok(maze: Maze, block: int, x: int, y: int, radius: int) -> bool {
    &&& maze.wf()
    &&& maze.spec_height() <= MAZE_DIM_LIMIT
    &&& maze.spec_width() <= MAZE_DIM_LIMIT
    &&& 1 <= block <= BLOCK_LIMIT
    &&& 0 <= radius <= FX_INF
    &&& -0x4000_0000_0000 <= x <= 0x4000_0000_0000
    &&& -0x4000_0000_0000 <= y <= 0x4000_0000_0000
}

fn point_walkable_exec(maze: &Maze, block_size: usize, px: i64, py: i64) -> (r: bool)
    requires
        maze.wf(),
        maze.spec_height() <= MAZE_DIM_LIMIT,
        maze.spec_width() <= MAZE_DIM_LIMIT,
        1 <= block_size <= BLOCK_LIMIT,
        -0x8000_0000_0000 <= px <= 0x8000_0000_0000,
        -0x8000_0000_0000 <= py <= 0x8000_0000_0000,
    ensures
        r == point_walkable(*maze, block_size as int, px as int, py as int),
{
    if px < 0 || py < 0 {
        return false;
    }
    let g: i64 = FX_ONE * (block_size as i64);
    let gx: i64 = floor_div(px, g);
    let gy: i64 = floor_div(py, g);
    let h: usize = maze.height();
    let w: usize = maze.width();
    if (gx as u64) >= (w as u64) || (gy as u64) >= (h as u64) {
        return false;
    }
    maze.at(gx as usize, gy as usize) == EMPTY_CELL
}

/// The five-point hitbox collision test; true means the position is free.
pub fn colision(maze: &Maze, block_size: usize, x: i64, y: i64, radius: i64) -> (r: bool)
    requires
        colision_inputs_ok(*maze, block_size as int, x as int, y as int, radius as int),
    ensures
        r == colision_spec(*maze, block_size as int, x as int, y as int, radius as int),
{
    if !point_walkable_exec(maze, block_size, x, y) {
        return false;
    }
    if !point_walkable_exec(maze, block_size, x + radius, y) {
        return false;
    }
    if !point_walkable_exec(maze, block_size, x - radius, y) {
        return false;
    }
    if !point_walkable_exec(maze, block_size, x, y + radius) {
        return false;
    }
    point_walkable_exec(maze, block_size, x, y - radius)
}

/// The key and mouse state of one frame, as plain values.
#[derive(Clone, Copy, PartialEq, Eq, Structural, Debug)]
pub struct InputState {
    pub forward: bool,
    pub backward: bool,
    pub strafe_right: bool,
    pub strafe_left: bool,
    /// Horizontal mouse movement, in counts.
    pub mouse_dx: i64,
}

/// The target of one attempted move; taken only when free, else the
/// position is kept.
pub open spec fn try_move_spec(
    maze: Maze,
    block: int,
    px: int,
    py: int,
    dx: int,
    dy: int,
) -> (int, int) {
    if colision_spec(maze, block, px + dx, py + dy, PLAYER_RADIUS_FX as int) {
        (px + dx, py + dy)
    } else {
        (px, py)
    }
}

/// The whole per-frame movement: heading turns with the mouse and
/// normalizes, then forward, backward, strafe-right and strafe-left moves
/// are tried in that order, each against the collision test.
pub open spec fn process_events_spec(
    p: Player,
    input: InputState,
    dt: int,
    maze: Maze,
    block: int,
) -> Player {
    let a2 = norm_angle_spec(p.a + input.mouse_dx * MOUSE_SENS_FX);
    let fx = cos_fx_spec(a2);
    let fy = sin_fx_spec(a2);
    let fstep = fx_mul_spec(MOVE_SPEED_FX as int, dt);
    let lstep = fx_mul_spec(LATERAL_SPEED_FX as int, dt);
    let q0 = (p.pos.x as int, p.pos.y as int);
    let q1 = if input.forward {
        try_move_spec(
            maze,
            block,
            q0.0,
            q0.1,
            fx_mul_spec(fx, fstep),
            fx_mul_spec(fy, fstep),
        )
    } else {
        q0
    };
    let q2 = if input.backward {
        try_move_spec(
            maze,
            block,
            q1.0,
            q1.1,
            -fx_mul_spec(fx, fstep),
            -fx_mul_spec(fy, fstep),
        )
    } else {
        q1
    };
    let q3 = if input.strafe_right {
        try_move_spec(
            maze,
            block,
            q2.0,
            q2.1,
            -fx_mul_spec(fy, lstep),
            fx_mul_spec(fx, lstep),
        )
    } else {
        q2
    };
    let q4 = if input.strafe_left {
        try_move_spec(
            maze,
            block,
            q3.0,
            q3.1,
            fx_mul_spec(fy, lstep),
            -fx_mul_spec(fx, lstep),
        )
    } else {
        q3
    };
    Player { pos: Vec2Fx { x: q4.0 as i64, y: q4.1 as i64 }, a: a2 as i64, fov: p.fov }
}

/// Apply one frame of input to the player: turn, normalize the heading, and
/// try each movement key's step against the collision test. The final
/// position is either unchanged or passed the test.
#[verifier::rlimit(60)]
pub fn process_events(
    player: &mut Player,
    input: &InputState,
    dt: i64,
    maze: &Maze,
    block_size: usize,
)
    requires
        maze.wf(),
        maze.spec_height() <= MAZE_DIM_LIMIT,
        maze.spec_width() <= MAZE_DIM_LIMIT,
        1 <= block_size <= BLOCK_LIMIT,
        0 <= dt <= FX_ONE,
        -PLAYER_POS_LIMIT <= old(player).pos.x <= PLAYER_POS_LIMIT,
        -PLAYER_POS_LIMIT <= old(player).pos.y <= PLAYER_POS_LIMIT,
        -PI_FX <= old(player).a <= PI_FX,
        -0x10_0000_0000 <= input.mouse_dx <= 0x10_0000_0000,
    ensures
        *final(player) == process_events_spec(
            *old(player),
            *input,
            dt as int,
            *maze,
            block_size as int,
        ),
        -PI_FX < final(player).a <= PI_FX,
        final(player).pos == old(player).pos || colision_spec(
            *maze,
            block_size as int,
            final(player).pos.x as int,
            final(player).pos.y as int,
            PLAYER_RADIUS_FX as int,
        ),
{
    let a2: i64 = norm_angle(player.a + input.mouse_dx * MOUSE_SENS_FX);
    player.a = a2;
    let fx: i64 = cos_fx(a2);
    let fy: i64 = sin_fx(a2);
    let fstep: i64 = fx_mul(MOVE_SPEED_FX, dt);
    let lstep: i64 = fx_mul(LATERAL_SPEED_FX, dt);
    proof {
        lemma_fx_mul_unit_bound(MOVE_SPEED_FX as int, dt as int);
        lemma_fx_mul_unit_bound(LATERAL_SPEED_FX as int, dt as int);
        lemma_fx_mul_unit_bound(fx as int, fstep as int);
        lemma_fx_mul_unit_bound(fy as int, fstep as int);
        lemma_fx_mul_unit_bound(fx as int, lstep as int);
        lemma_fx_mul_unit_bound(fy as int, lstep as int);
    }

    if input.forward {
        let dx: i64 = fx_mul(fx, fstep);
        let dy: i64 = fx_mul(fy, fstep);
        if colision(maze, block_size, player.pos.x + dx, player.pos.y + dy, PLAYER_RADIUS_FX) {
            player.pos.x = player.pos.x + dx;
            player.pos.y = player.pos.y + dy;
        }
    }
    if input.backward {
        let dx: i64 = fx_mul(fx, fstep);
        let dy: i64 = fx_mul(fy, fstep);
        if colision(maze, block_size, player.pos.x - dx, player.pos.y - dy, PLAYER_RADIUS_FX) {
            player.pos.x = player.pos.x - dx;
            player.pos.y = player.pos.y - dy;
        }
    }
    if input.strafe_right {
        let dx: i64 = fx_mul(fy, lstep);
        let dy: i64 = fx_mul(fx, lstep);
        if colision(maze, block_size, player.pos.x - dx, player.pos.y + dy, PLAYER_RADIUS_FX) {
            player.pos.x = player.pos.x - dx;
            player.pos.y = player.pos.y + dy;
        }
    }
    if input.strafe_left {
        let dx: i64 = fx_mul(fy, lstep);
        let dy: i64 = fx_mul(fx, lstep);
        if colision(maze, block_size, player.pos.x + dx, player.pos.y - dy, PLAYER_RADIUS_FX) {
            player.pos.x = player.pos.x + dx;
            player.pos.y = player.pos.y - dy;
        }
    }
}

} // verus!
