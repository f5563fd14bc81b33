//! Level definitions and the game-state machine. The rendering core runs
//! only while the state is `Playing`; menu, win and game-over screens are
//! the surrounding program's business, driven by `next_state`.

use vstd::prelude::*;
use crate::fixed::{FX_ONE, sabs};
use crate::maze::Maze;
use crate::sprites::Enemy;
use crate::player::Vec2Fx;
use crate::caster::{POS_LIMIT, BLOCK_LIMIT};

verus! {

/// The phases of a play session.
#[derive(Clone, Copy, PartialEq, Eq, Structural, Debug)]
pub enum GameState {
    Start,
    Playing,
    Win,
    GameOver,
}

/// The external happenings that drive the game-state machine.
#[derive(Clone, Copy, PartialEq, Eq, Structural, Debug)]
pub enum GameEvent {
    /// The confirm key: start or restart a level.
    Confirm,
    /// The menu key: back to the start screen.
    Menu,
    /// An enemy reached the player's cell.
    Caught,
    /// The player reached the goal while holding the key.
    GoalReached,
}

/// The transition relation of the game-state machine. Events that a state
/// does not react to leave it unchanged.
pub open spec fn next_state_spec(s: GameState, ev: GameEvent) -> GameState {
    match (s, ev) {
        (GameState::Start, GameEvent::Confirm) => GameState::Playing,
        (GameState::Playing, GameEvent::Caught) => GameState::GameOver,
        (GameState::Playing, GameEvent::GoalReached) => GameState::Win,
        (GameState::GameOver, GameEvent::Confirm) => GameState::Start,
        (GameState::GameOver, GameEvent::Menu) => GameState::Start,
        (GameState::Win, GameEvent::Confirm) => GameState::Playing,
        (GameState::Win, GameEvent::Menu) => GameState::Start,
        _ => s,
    }
}

/// Advance the game-state machine by one event.
pub fn next_state(s: GameState, ev: GameEvent) -> (r: GameState)
    ensures
        r == next_state_spec(s, ev),
{
    match (s, ev) {
        (GameState::Start, GameEvent::Confirm) => GameState::Playing,
        (GameState::Playing, GameEvent::Caught) => GameState::GameOver,
        (GameState::Playing, GameEvent::GoalReached) => GameState::Win,
        (GameState::GameOver, GameEvent::Confirm) => GameState::Start,
        (GameState::GameOver, GameEvent::Menu) => GameState::Start,
        (GameState::Win, GameEvent::Confirm) => GameState::Playing,
        (GameState::Win, GameEvent::Menu) => GameState::Start,
        _ => s,
    }
}

/// Law: the machine only ever enters `Playing` on a confirm key, and only
/// leaves it when the player is caught or reaches the goal.
pub proof fn lemma_playing_transitions(s: GameState, ev: GameEvent)
    ensures
        next_state_spec(s, ev) == GameState::Playing && s != GameState::Playing ==> ev
            == GameEvent::Confirm,
        s == GameState::Playing && next_state_spec(s, ev) != GameState::Playing ==> (ev
            == GameEvent::Caught || ev == GameEvent::GoalReached),
{
}

/// What a level consists of: a display name, the file its grid is read
/// from, the player's start cell and heading (cell units, fixed), and the
/// starting entities (cell units, fixed, with their texture tag).
pub struct LevelDef {
    pub name: &'static str,
    pub maze_path: &'static str,
    pub player_start: (i64, i64, i64),
    pub enemies: Vec<(i64, i64, char)>,
}

impl LevelDef {
    /// Coordinates of the start position and of every entity are within the
    /// caster's accepted range.
    pub open spec fn wf(self) -> bool {
        &&& -POS_LIMIT <= self.player_start.0 <= POS_LIMIT
        &&& -POS_LIMIT <= self.player_start.1 <= POS_LIMIT
        &&& forall|i: int|
            0 <= i < self.enemies@.len() ==> {
                let e = #[trigger] self.enemies@[i];
                -0x10_0000 <= e.0 <= 0x10_0000 && -0x10_0000 <= e.1 <= 0x10_0000
            }
    }
}

/// The built-in level set.
pub fn levels() -> (r: Vec<LevelDef>)
    ensures
        r@.len() == 3,
        forall|i: int| 0 <= i < 3 ==> (#[trigger] r@[i]).wf(),
{
    let mut out: Vec<LevelDef> = Vec::new();
    let mut e1: Vec<(i64, i64, char)> = Vec::new();
    e1.push((14 * FX_ONE, 4 * FX_ONE, 'e'));
    e1.push((2 * FX_ONE + 0x8000, 9 * FX_ONE + 0x8000, 'f'));
    e1.push((4 * FX_ONE + 0x8000, FX_ONE + 0x8000, 'k'));
    e1.push((6 * FX_ONE + 0x8000, FX_ONE + 0x8000, 'p'));
    out.push(
        LevelDef {
            name: "Nivel 1",
            maze_path: "maze.txt",
            player_start: (13 * FX_ONE, 2 * FX_ONE, 0),
            enemies: e1,
        },
    );
    let mut e2: Vec<(i64, i64, char)> = Vec::new();
    e2.push((11 * FX_ONE + 0x8000, 2 * FX_ONE + 0x8000, 'e'));
    e2.push((2 * FX_ONE + 0x8000, 7 * FX_ONE + 0x8000, 'f'));
    e2.push((2 * FX_ONE + 0x8000, 4 * FX_ONE + 0x8000, 'k'));
    e2.push((4 * FX_ONE + 0x8000, 4 * FX_ONE + 0x8000, 'p'));
    out.push(
        LevelDef {
            name: "Nivel 2",
            maze_path: "maze2.txt",
            player_start: (13 * FX_ONE, 2 * FX_ONE, 0),
            enemies: e2,
        },
    );
    let mut e3: Vec<(i64, i64, char)> = Vec::new();
    e3.push((14 * FX_ONE + 0x8000, FX_ONE + 0x8000, 'e'));
    e3.push((14 * FX_ONE, 6 * FX_ONE + 0x8000, 'f'));
    e3.push((3 * FX_ONE, 2 * FX_ONE + 0x8000, 'k'));
    e3.push((8 * FX_ONE + 0x8000, 7 * FX_ONE + 0x8000, 'p'));
    out.push(
        LevelDef {
            name: "Nivel 3",
            maze_path: "maze3.txt",
            player_start: (15 * FX_ONE, FX_ONE + 0x8000, 0),
            enemies: e3,
        },
    );
    out
}

/// Assemble a level from its definition and the grid rows read for it:
/// reject non-rectangular rows, scale the entities from cell units to world
/// units, and hand back the start position unscaled (cell units, as the
/// definition holds it).
pub fn load_level(def: &LevelDef, rows: Vec<Vec<char>>, block_size: usize) -> (r: Option<
    (Maze, Vec<Enemy>, (i64, i64, i64)),
>)
    requires
        def.wf(),
        1 <= block_size <= BLOCK_LIMIT,
    ensures
        r is Some <==> Maze::rows_rectangular(rows@),
        r is Some ==> ({
            let (maze, enemies, start) = r->Some_0;
            &&& maze.rows == rows
            &&& maze.wf()
            &&& start == def.player_start
            &&& enemies@.len() == def.enemies@.len()
            &&& forall|i: int|
                0 <= i < enemies@.len() ==> #[trigger] enemies@[i] == (Enemy {
                    pos: Vec2Fx {
                        x: (def.enemies@[i].0 * block_size) as i64,
                        y: (def.enemies@[i].1 * block_size) as i64,
                    },
                    id: def.enemies@[i].2,
                    scale: FX_ONE,
                })
        }),
{
    let maze: Maze = match Maze::from_rows(rows) {
        Some(m) => m,
        None => {
            return None;
        },
    };
    let mut enemies: Vec<Enemy> = Vec::new();
    let mut i: usize = 0;
    while i < def.enemies.len()
        invariant
            i <= def.enemies.len(),
            def.wf(),
            1 <= block_size <= BLOCK_LIMIT,
            enemies@.len() == i,
            forall|k: int|
                0 <= k < i ==> #[trigger] enemies@[k] == (Enemy {
                    pos: Vec2Fx {
                        x: (def.enemies@[k].0 * block_size) as i64,
                        y: (def.enemies@[k].1 * block_size) as i64,
                    },
                    id: def.enemies@[k].2,
                    scale: FX_ONE,
                }),
        decreases def.enemies.len() - i,
    {
        let (x, y, id) = def.enemies[i];
        proof {
            assert(sabs((x as int) * (block_size as int)) <= 0x10_0000 * (BLOCK_LIMIT as int)
                && sabs((y as int) * (block_size as int)) <= 0x10_0000 * (
            BLOCK_LIMIT as int)) by (nonlinear_arith)
                requires
                    sabs(x as int) <= 0x10_0000,
                    sabs(y as int) <= 0x10_0000,
                    1 <= block_size <= BLOCK_LIMIT,
            ;
        }
        enemies.push(Enemy::new(x * (block_size as i64), y * (block_size as i64), id));
        i += 1;
    }
    Some((maze, enemies, def.player_start))
}

} // verus!
