use vstd::prelude::*;
use rand_chacha::ChaCha8Rng;
use crate::error::GenError;
use crate::grid::TileGrid;
use crate::layout::{
    is_physics_group, is_sky_group, physics_group, sky_then, tiles_layer, white, Color, Layer,
    MapLayout, TilesLayer, IMAGE_BASIC_FREEZE, IMAGE_GENERIC_UNHOOKABLE,
};
use crate::random::{gen_range_inclusive, uniform_inclusive};
use crate::tiles::{
    DECO_CEILING, DECO_FREEZE, TILE_EMPTY, TILE_FINISH, TILE_FREEZE, TILE_SPAWN, TILE_START,
    TILE_UNHOOKABLE,
};

verus! {

/// Row of the front layer that holds the finish line.
pub const FINISH_ROW: usize = 10;

/// Half-width that the corridor starts from, before it is clamped.
pub const INITIAL_FLY_WIDTH: i64 = 10;

/// Generator of a level in which a freeze corridor winds up from the spawn.
pub struct FlyGenerator {
    pub max_fly_width: u16,
    pub min_fly_width: u16,
}

/// One row of the corridor: the free columns are
/// `center - half_width ..= center + half_width`.
#[derive(Clone, Copy, Debug, PartialEq, Eq, Structural)]
pub struct Corridor {
    pub center: i64,
    pub half_width: i64,
}

/// The walk after a row: the row's corridor, the direction it moves in, and
/// how many more rows keep that direction before it is drawn again.
#[derive(Clone, Copy, Debug, PartialEq, Eq, Structural)]
pub struct WalkState {
    pub corridor: Corridor,
    pub direction: i64,
    pub countdown: i64,
}

pub open spec fn clamp(v: int, lo: int, hi: int) -> int {
    if v < lo {
        lo
    } else if v > hi {
        hi
    } else {
        v
    }
}

fn clamp_i64(v: i64, lo: i64, hi: i64) -> (r: i64)
    requires
        lo <= hi,
    ensures
        r == clamp(v as int, lo as int, hi as int),
{
    if v < lo {
        lo
    } else if v > hi {
        hi
    } else {
        v
    }
}

impl Corridor {
    /// The corridor lies inside a grid `width` columns wide, one column off each edge.
    pub open spec fn fits(self, width: int) -> bool {
        0 <= self.half_width <= self.center && self.center + self.half_width < width
    }

    /// Column `x` of the row lies outside the corridor.
    pub open spec fn walls(self, x: int) -> bool {
        x < self.center - self.half_width || x > self.center + self.half_width
    }
}

/// `round(0.3 * height)`, half away from zero.
pub open spec fn max_direction_steps(height: int) -> int {
    (3 * height + 5) / 10
}

fn max_direction_steps_of(height: usize) -> (r: i64)
    requires
        height <= isize::MAX,
    ensures
        r == max_direction_steps(height as int),
{
    let tens = height / 10;
    let rest = height % 10;
    proof {
        assert(3 * height + 5 == 30 * tens + (3 * rest + 5)) by (nonlinear_arith)
            requires
                height == 10 * tens + rest,
        ;
        assert((30 * tens + (3 * rest + 5)) / 10 == 3 * tens + (3 * rest + 5) / 10)
            by (nonlinear_arith)
            requires
                0 <= rest < 10,
                tens >= 0,
        ;
    }
    (3 * tens + (3 * rest + 5) / 10) as i64
}

impl FlyGenerator {
    /// The parameters and dimensions admit a level: the bounds are ordered,
    /// every fixed row lies in the grid, and the widest corridor fits.
    pub open spec fn valid_for(&self, width: int, height: int) -> bool {
        &&& self.min_fly_width <= self.max_fly_width
        &&& height > FINISH_ROW
        &&& width > 2 * self.max_fly_width
    }

    /// The corridor at the start of the walk, before the first row.
    pub open spec fn initial(width: int) -> Corridor {
        Corridor { center: (width / 2) as i64, half_width: INITIAL_FLY_WIDTH }
    }

    /// One step of the walk: the half-width changes by `width_change` and is
    /// clamped into the bounds, then the center moves by `direction` and is
    /// clamped so that the corridor stays off the edges.
    pub open spec fn step(&self, width: int, prev: Corridor, direction: int, width_change: int) -> Corridor {
        let half = clamp(
            prev.half_width + width_change,
            self.min_fly_width as int,
            self.max_fly_width as int,
        );
        Corridor {
            center: clamp(prev.center + direction, half, width - half - 1) as i64,
            half_width: half as i64,
        }
    }

    /// One row of the walk. Where the countdown has run out, the direction
    /// becomes `direction` and the countdown `steps`, both freshly drawn;
    /// otherwise both are kept. The corridor then takes a step in that
    /// direction with `width_change`, and the countdown goes down by one.
    pub open spec fn row_step(&self, width: int, s: WalkState, steps: int, direction: int, width_change: int) -> WalkState {
        let kept = if s.countdown == 0 {
            steps
        } else {
            s.countdown as int
        };
        let dir = if s.countdown == 0 {
            direction
        } else {
            s.direction as int
        };
        WalkState {
            corridor: self.step(width, s.corridor, dir, width_change),
            direction: dir as i64,
            countdown: (kept - 1) as i64,
        }
    }

    /// The state before the first row: the initial corridor, a direction in
    /// `-1..=1`, and a countdown between half of and all of `round(0.3 * height)`.
    pub open spec fn starts_walk(&self, width: int, height: int, s: WalkState) -> bool {
        &&& s.corridor == Self::initial(width)
        &&& -1 <= s.direction <= 1
        &&& max_direction_steps(height) / 2 <= s.countdown <= max_direction_steps(height)
    }

    /// `next` follows `prev` by one row, with a drawn countdown in `1..=10`, a
    /// drawn direction and a width change in `-1..=1`.
    pub open spec fn follows(&self, width: int, prev: WalkState, next: WalkState) -> bool {
        exists|n: int, d: int, c: int|
            1 <= n <= 10 && -1 <= d <= 1 && -1 <= c <= 1 && #[trigger] self.row_step(width, prev, n, d, c)
                == next
    }

    /// `states` are the `height - 1` states of a walk: the one before the
    /// first row, then one after each row.
    pub open spec fn is_walk_of(&self, width: int, height: int, states: Seq<WalkState>) -> bool {
        &&& states.len() == height - 1
        &&& self.starts_walk(width, height, states[0])
        &&& forall|i: int| 0 < i < states.len() ==> #[trigger] self.follows(width, states[i - 1], states[i])
    }

    /// `rows` are the corridors of a walk of `height - 2` rows, bottom row first.
    pub open spec fn is_walk(&self, width: int, height: int, rows: Seq<Corridor>) -> bool {
        exists|states: Seq<WalkState>|
            #[trigger] self.is_walk_of(width, height, states) && rows.len() == height - 2 && forall|i: int|
                0 <= i < rows.len() ==> #[trigger] rows[i] == states[i + 1].corridor
    }

    /// One step of the walk, see [`FlyGenerator::step`].
    pub fn next_corridor(&self, width: usize, prev: Corridor, direction: i64, width_change: i64) -> (r: Corridor)
        requires
            self.min_fly_width <= self.max_fly_width,
            width > 2 * self.max_fly_width,
            width < isize::MAX,
            0 <= prev.center <= width,
            0 <= prev.half_width <= INITIAL_FLY_WIDTH + self.max_fly_width,
            -1 <= direction <= 1,
            -1 <= width_change <= 1,
        ensures
            r == self.step(width as int, prev, direction as int, width_change as int),
            r.fits(width as int),
            self.min_fly_width <= r.half_width <= self.max_fly_width,
    {
        let half = clamp_i64(
            prev.half_width + width_change,
            self.min_fly_width as i64,
            self.max_fly_width as i64,
        );
        let center = clamp_i64(prev.center + direction, half, width as i64 - half - 1);
        Corridor { center, half_width: half }
    }

    /// One row of the walk, see [`FlyGenerator::row_step`].
    pub fn next_state(&self, width: usize, s: WalkState, steps: i64, direction: i64, width_change: i64) -> (r: WalkState)
        requires
            self.min_fly_width <= self.max_fly_width,
            width > 2 * self.max_fly_width,
            width < isize::MAX,
            0 <= s.corridor.center <= width,
            0 <= s.corridor.half_width <= INITIAL_FLY_WIDTH + self.max_fly_width,
            -1 <= s.direction <= 1,
            0 <= s.countdown,
            1 <= steps <= 10,
            -1 <= direction <= 1,
            -1 <= width_change <= 1,
        ensures
            r == self.row_step(width as int, s, steps as int, direction as int, width_change as int),
            r.corridor.fits(width as int),
            self.min_fly_width <= r.corridor.half_width <= self.max_fly_width,
            -1 <= r.direction <= 1,
            0 <= r.countdown,
    {
        let (kept, dir) = if s.countdown == 0 {
            (steps, direction)
        } else {
            (s.countdown, s.direction)
        };
        let corridor = self.next_corridor(width, s.corridor, dir, width_change);
        WalkState { corridor, direction: dir, countdown: kept - 1 }
    }

    /// Runs the walk over the `height - 2` rows below the ceiling, bottom row
    /// first. The direction is kept for a random number of rows (at first
    /// between half of and all of `round(0.3 * height)`, later between 1 and 10)
    /// and then drawn again; the width change is drawn for every row.
    pub fn plan_corridor(&self, rng: &mut ChaCha8Rng, width: usize, height: usize) -> (r: Vec<Corridor>)
        requires
            self.valid_for(width as int, height as int),
            height * width <= isize::MAX,
        ensures
            self.is_walk(width as int, height as int, r@),
            forall|i: int|
                0 <= i < r.len() ==> (#[trigger] r[i]).fits(width as int) && self.min_fly_width
                    <= r[i].half_width <= self.max_fly_width,
    {
        proof {
            assert(width * 11 <= height * width) by (nonlinear_arith)
                requires
                    height >= 11,
            ;
            assert(height <= height * width) by (nonlinear_arith)
                requires
                    width >= 1,
            ;
        }
        let max_steps = max_direction_steps_of(height);
        let countdown = gen_range_inclusive(rng, max_steps / 2, max_steps);
        let direction = gen_range_inclusive(rng, -1, 1);
        let mut state = WalkState {
            corridor: Corridor { center: (width / 2) as i64, half_width: INITIAL_FLY_WIDTH },
            direction,
            countdown,
        };
        let ghost states: Seq<WalkState> = seq![state];
        let mut rows: Vec<Corridor> = Vec::new();
        let total = height - 2;
        while rows.len() < total
            invariant
                self.valid_for(width as int, height as int),
                width < isize::MAX,
                total == height - 2,
                rows.len() <= total,
                states.len() == rows.len() + 1,
                state == states.last(),
                0 <= state.countdown,
                -1 <= state.direction <= 1,
                0 <= state.corridor.center <= width,
                0 <= state.corridor.half_width <= INITIAL_FLY_WIDTH + self.max_fly_width,
                self.starts_walk(width as int, height as int, states[0]),
                forall|i: int|
                    0 < i < states.len() ==> #[trigger] self.follows(width as int, states[i - 1], states[i]),
                forall|i: int| 0 <= i < rows.len() ==> #[trigger] rows[i] == states[i + 1].corridor,
                forall|i: int|
                    0 <= i < rows.len() ==> (#[trigger] rows[i]).fits(width as int)
                        && self.min_fly_width <= rows[i].half_width <= self.max_fly_width,
            decreases total - rows.len(),
        {
            let (steps, direction) = if state.countdown == 0 {
                let steps = uniform_inclusive(rng, 1, 10);
                let direction = uniform_inclusive(rng, -1, 1);
                (steps, direction)
            } else {
                (1, 0)
            };
            let width_change = uniform_inclusive(rng, -1, 1);
            let next = self.next_state(width, state, steps, direction, width_change);
            assert(self.follows(width as int, state, next));
            let ghost before = states;
            proof {
                states = states.push(next);
            }
            assert forall|i: int| 0 < i < states.len() implies #[trigger] self.follows(
                width as int,
                states[i - 1],
                states[i],
            ) by {
                if i < before.len() {
                    assert(states[i - 1] == before[i - 1] && states[i] == before[i]);
                }
            }
            rows.push(next.corridor);
            state = next;
        }
        assert(self.is_walk_of(width as int, height as int, states));
        rows
    }
}

/// The four grids of a fly level, all of the same dimensions.
pub struct FlyGrids {
    /// Gameplay tiles: ceiling, spawn and freeze walls.
    pub game: TileGrid,
    /// Start and finish lines.
    pub front: TileGrid,
    /// Decoration of the ceiling.
    pub unhookable: TileGrid,
    /// Decoration of the freeze walls.
    pub freeze: TileGrid,
}

/// Game id of row `y`, column `x`: the ceiling at `height - 2`, the spawn at
/// `(height - 3, width / 2)`, freeze outside the corridor on the rows below the
/// ceiling (row `y` is step `height - 3 - y` of the walk), empty elsewhere.
pub open spec fn fly_game_id(width: int, height: int, rows: Seq<Corridor>, y: int, x: int) -> u8 {
    if y == height - 2 {
        TILE_UNHOOKABLE
    } else if y == height - 3 && x == width / 2 {
        TILE_SPAWN
    } else if y <= height - 3 && rows[height - 3 - y].walls(x) {
        TILE_FREEZE
    } else {
        TILE_EMPTY
    }
}

/// Front id of row `y`: the finish line on row 10, the start line on row `height - 6`.
pub open spec fn fly_front_id(height: int, y: int) -> u8 {
    if y == FINISH_ROW {
        TILE_FINISH
    } else if y == height - 6 {
        TILE_START
    } else {
        TILE_EMPTY
    }
}

/// Ceiling decoration of row `y`.
pub open spec fn fly_ceiling_id(height: int, y: int) -> u8 {
    if y == height - 2 {
        DECO_CEILING
    } else {
        0
    }
}

/// Freeze decoration of row `y`, column `x`: on every freeze wall.
pub open spec fn fly_freeze_id(height: int, rows: Seq<Corridor>, y: int, x: int) -> u8 {
    if y <= height - 3 && rows[height - 3 - y].walls(x) {
        DECO_FREEZE
    } else {
        0
    }
}

impl FlyGrids {
    /// Each grid is well formed and `height` by `width`.
    pub open spec fn shaped(&self, width: int, height: int) -> bool {
        &&& self.game.wf() && self.game.spec_height() == height && self.game.spec_width() == width
        &&& self.front.wf() && self.front.spec_height() == height && self.front.spec_width() == width
        &&& self.unhookable.wf() && self.unhookable.spec_height() == height
            && self.unhookable.spec_width() == width
        &&& self.freeze.wf() && self.freeze.spec_height() == height && self.freeze.spec_width() == width
    }

    /// The grids hold exactly the level that the walk `rows` carves.
    pub open spec fn carved_from(&self, width: int, height: int, rows: Seq<Corridor>) -> bool {
        &&& self.shaped(width, height)
        &&& forall|y: int, x: int|
            self.game.in_bounds(y, x) ==> #[trigger] self.game.id_at(y, x) == fly_game_id(
                width,
                height,
                rows,
                y,
                x,
            )
        &&& forall|y: int, x: int|
            self.front.in_bounds(y, x) ==> #[trigger] self.front.id_at(y, x) == fly_front_id(height, y)
        &&& forall|y: int, x: int|
            self.unhookable.in_bounds(y, x) ==> #[trigger] self.unhookable.id_at(y, x)
                == fly_ceiling_id(height, y)
        &&& forall|y: int, x: int|
            self.freeze.in_bounds(y, x) ==> #[trigger] self.freeze.id_at(y, x) == fly_freeze_id(
                height,
                rows,
                y,
                x,
            )
    }
}

fn is_wall(rows: &Vec<Corridor>, width: usize, height: usize, y: usize, x: usize) -> (r: bool)
    requires
        rows.len() + 2 == height,
        y < height,
        x < width,
        width <= isize::MAX,
        forall|i: int| 0 <= i < rows.len() ==> (#[trigger] rows[i]).fits(width as int),
    ensures
        r == (y <= height - 3 && rows[height - 3 - y].walls(x as int)),
{
    if height - y >= 3 {
        let c = rows[height - 3 - y];
        (x as i64) < c.center - c.half_width || (x as i64) > c.center + c.half_width
    } else {
        false
    }
}

/// Carves the level of the walk `rows` (bottom row first) into four
/// `height` by `width` grids.
pub fn carve_fly(width: usize, height: usize, rows: &Vec<Corridor>) -> (r: FlyGrids)
    requires
        rows.len() + 2 == height,
        height <= isize::MAX,
        width <= isize::MAX,
        height * width <= isize::MAX,
        forall|i: int| 0 <= i < rows.len() ==> (#[trigger] rows[i]).fits(width as int),
    ensures
        r.carved_from(width as int, height as int, rows@),
{
    proof {
        assert(width <= height * width) by (nonlinear_arith)
            requires
                height >= 1,
        ;
    }
    let mut game = TileGrid::new(height, width);
    let mut front = TileGrid::new(height, width);
    let mut unhookable = TileGrid::new(height, width);
    let mut freeze = TileGrid::new(height, width);
    let ghost w = width as int;
    let ghost h = height as int;
    let mut y: usize = 0;
    while y < height
        invariant
            rows.len() + 2 == height,
            width <= isize::MAX,
            forall|i: int| 0 <= i < rows.len() ==> (#[trigger] rows[i]).fits(w),
            w == width,
            h == height,
            y <= height,
            (FlyGrids { game, front, unhookable, freeze }).shaped(w, h),
            forall|a: int, b: int|
                game.in_bounds(a, b) ==> #[trigger] game.id_at(a, b) == if a < y {
                    fly_game_id(w, h, rows@, a, b)
                } else {
                    0
                },
            forall|a: int, b: int|
                front.in_bounds(a, b) ==> #[trigger] front.id_at(a, b) == if a < y {
                    fly_front_id(h, a)
                } else {
                    0
                },
            forall|a: int, b: int|
                unhookable.in_bounds(a, b) ==> #[trigger] unhookable.id_at(a, b) == if a < y {
                    fly_ceiling_id(h, a)
                } else {
                    0
                },
            forall|a: int, b: int|
                freeze.in_bounds(a, b) ==> #[trigger] freeze.id_at(a, b) == if a < y {
                    fly_freeze_id(h, rows@, a, b)
                } else {
                    0
                },
        decreases height - y,
    {
        let mut x: usize = 0;
        while x < width
            invariant
                rows.len() + 2 == height,
                width <= isize::MAX,
                forall|i: int| 0 <= i < rows.len() ==> (#[trigger] rows[i]).fits(w),
                w == width,
                h == height,
                y < height,
                x <= width,
                (FlyGrids { game, front, unhookable, freeze }).shaped(w, h),
                forall|a: int, b: int|
                    game.in_bounds(a, b) ==> #[trigger] game.id_at(a, b) == if a < y || (a == y
                        && b < x) {
                        fly_game_id(w, h, rows@, a, b)
                    } else {
                        0
                    },
                forall|a: int, b: int|
                    front.in_bounds(a, b) ==> #[trigger] front.id_at(a, b) == if a < y || (a == y
                        && b < x) {
                        fly_front_id(h, a)
                    } else {
                        0
                    },
                forall|a: int, b: int|
                    unhookable.in_bounds(a, b) ==> #[trigger] unhookable.id_at(a, b) == if a < y
                        || (a == y && b < x) {
                        fly_ceiling_id(h, a)
                    } else {
                        0
                    },
                forall|a: int, b: int|
                    freeze.in_bounds(a, b) ==> #[trigger] freeze.id_at(a, b) == if a < y || (a == y
                        && b < x) {
                        fly_freeze_id(h, rows@, a, b)
                    } else {
                        0
                    },
            decreases width - x,
        {
            let wall = is_wall(rows, width, height, y, x);
            let game_id = if y == height - 2 {
                TILE_UNHOOKABLE
            } else if height >= 3 && y == height - 3 && x == width / 2 {
                TILE_SPAWN
            } else if wall {
                TILE_FREEZE
            } else {
                TILE_EMPTY
            };
            let front_id = if y == FINISH_ROW {
                TILE_FINISH
            } else if height >= 6 && y == height - 6 {
                TILE_START
            } else {
                TILE_EMPTY
            };
            let ceiling_id: u8 = if y == height - 2 {
                DECO_CEILING
            } else {
                0
            };
            let freeze_id: u8 = if wall {
                DECO_FREEZE
            } else {
                0
            };
            game.set(y, x, game_id);
            front.set(y, x, front_id);
            unhookable.set(y, x, ceiling_id);
            freeze.set(y, x, freeze_id);
            x = x + 1;
        }
        y = y + 1;
    }
    FlyGrids { game, front, unhookable, freeze }
}

impl FlyGenerator {
    /// A step of the walk keeps the half-width within its bounds and the
    /// corridor off the edges.
    pub proof fn lemma_step_in_bounds(&self, width: int, prev: Corridor, direction: int, width_change: int)
        requires
            self.min_fly_width <= self.max_fly_width,
            2 * self.max_fly_width < width <= isize::MAX,
        ensures
            self.min_fly_width <= self.step(width, prev, direction, width_change).half_width
                <= self.max_fly_width,
            self.step(width, prev, direction, width_change).fits(width),
    {
    }

    /// Every row of a walk keeps `min_fly_width <= half_width <= max_fly_width`
    /// and `half_width <= center <= width - half_width - 1`.
    pub proof fn lemma_walk_in_bounds(&self, width: int, height: int, rows: Seq<Corridor>)
        requires
            self.valid_for(width, height),
            width <= isize::MAX,
            self.is_walk(width, height, rows),
        ensures
            forall|i: int|
                #![trigger rows[i]]
                0 <= i < rows.len() ==> self.min_fly_width <= rows[i].half_width
                    <= self.max_fly_width && rows[i].half_width <= rows[i].center <= width
                    - rows[i].half_width - 1,
    {
        let states = choose|states: Seq<WalkState>|
            #[trigger] self.is_walk_of(width, height, states) && rows.len() == height - 2 && forall|i: int|
                0 <= i < rows.len() ==> #[trigger] rows[i] == states[i + 1].corridor;
        assert forall|i: int| 0 <= i < rows.len() implies self.min_fly_width <= #[trigger] rows[i].half_width
            <= self.max_fly_width && rows[i].half_width <= rows[i].center <= width - rows[i].half_width
            - 1 by {
            let j = i + 1;
            assert(self.follows(width, states[j - 1], states[j]));
            assert(states[j - 1] == states[i]);
            let (n, d, c) = choose|n: int, d: int, c: int|
                1 <= n <= 10 && -1 <= d <= 1 && -1 <= c <= 1 && #[trigger] self.row_step(
                    width,
                    states[i],
                    n,
                    d,
                    c,
                ) == states[i + 1];
            let dir = if states[i].countdown == 0 {
                d
            } else {
                states[i].direction as int
            };
            self.lemma_step_in_bounds(width, states[i].corridor, dir, c);
        }
    }
}

impl FlyGrids {
    /// The game grid of a carved level holds exactly one spawn, at
    /// `(height - 3, width / 2)`.
    pub proof fn lemma_single_spawn(&self, width: int, height: int, rows: Seq<Corridor>)
        requires
            self.carved_from(width, height, rows),
            height >= 3,
            width >= 1,
        ensures
            self.game.in_bounds(height - 3, width / 2),
            self.game.id_at(height - 3, width / 2) == TILE_SPAWN,
            forall|y: int, x: int|
                self.game.in_bounds(y, x) && #[trigger] self.game.id_at(y, x) == TILE_SPAWN ==> y
                    == height - 3 && x == width / 2,
    {
    }

    /// Every cell of row `height - 2` of the game grid of a carved level is unhookable.
    pub proof fn lemma_ceiling(&self, width: int, height: int, rows: Seq<Corridor>)
        requires
            self.carved_from(width, height, rows),
            height >= 2,
        ensures
            forall|x: int|
                0 <= x < width ==> #[trigger] self.game.id_at(height - 2, x) == TILE_UNHOOKABLE,
    {
        assert forall|x: int| 0 <= x < width implies #[trigger] self.game.id_at(height - 2, x)
            == TILE_UNHOOKABLE by {
            assert(self.game.in_bounds(height - 2, x));
        }
    }

    /// The level is a function of the dimensions and the walk: two carvings of
    /// the same walk hold the same tiles in every grid.
    pub proof fn lemma_carving_deterministic(a: FlyGrids, b: FlyGrids, width: int, height: int, rows: Seq<Corridor>)
        requires
            a.carved_from(width, height, rows),
            b.carved_from(width, height, rows),
        ensures
            a.game@ == b.game@,
            a.front@ == b.front@,
            a.unhookable@ == b.unhookable@,
            a.freeze@ == b.freeze@,
    {
        TileGrid::lemma_same_cells(a.game, b.game);
        TileGrid::lemma_same_cells(a.front, b.front);
        TileGrid::lemma_same_cells(a.unhookable, b.unhookable);
        TileGrid::lemma_same_cells(a.freeze, b.freeze);
    }
}

/// Tint of the freeze decoration.
pub open spec fn freeze_tint() -> Color {
    Color { r: 0, g: 0, b: 0, a: 200 }
}

/// The physics layers of a fly level, in order: game, front, the ceiling
/// decoration over the unhookable image, the freeze decoration over the
/// freeze image with its tint.
pub open spec fn fly_layers(g: FlyGrids) -> Seq<Layer> {
    seq![
        Layer::Game(g.game),
        Layer::Front(g.front),
        Layer::Tiles(TilesLayer { tiles: g.unhookable, image: IMAGE_GENERIC_UNHOOKABLE, color: white() }),
        Layer::Tiles(TilesLayer { tiles: g.freeze, image: IMAGE_BASIC_FREEZE, color: freeze_tint() }),
    ]
}

/// `m` is the sky group followed by the physics group of a level that the
/// walk `rows` carves.
pub open spec fn is_fly_level(m: MapLayout, width: int, height: int, rows: Seq<Corridor>) -> bool {
    &&& m.groups@.len() == 2
    &&& is_sky_group(m.groups@[0])
    &&& exists|g: FlyGrids|
        g.carved_from(width, height, rows) && is_physics_group(m.groups@[1], #[trigger] fly_layers(g))
}

/// Wraps the grids of a fly level into its groups.
pub fn compose_fly(grids: FlyGrids) -> (r: MapLayout)
    ensures
        r.groups@.len() == 2,
        is_sky_group(r.groups@[0]),
        is_physics_group(r.groups@[1], fly_layers(grids)),
{
    let ghost g = grids;
    let FlyGrids { game, front, unhookable, freeze } = grids;
    let mut physics = physics_group();
    physics.layers.push(Layer::Game(game));
    physics.layers.push(Layer::Front(front));
    physics.layers.push(Layer::Tiles(tiles_layer(unhookable, IMAGE_GENERIC_UNHOOKABLE)));
    let mut freeze_layer = tiles_layer(freeze, IMAGE_BASIC_FREEZE);
    freeze_layer.color = Color { r: 0, g: 0, b: 0, a: 200 };
    physics.layers.push(Layer::Tiles(freeze_layer));
    assert(physics.layers@ =~= fly_layers(g));
    sky_then(physics)
}

impl FlyGenerator {
    /// The error that the parameters and dimensions give, if any.
    pub open spec fn config_error(&self, width: int, height: int) -> Option<GenError> {
        if self.min_fly_width > self.max_fly_width {
            Some(GenError::FlyWidthOrder)
        } else if height <= FINISH_ROW || width <= 2 * self.max_fly_width {
            Some(GenError::FlyGridTooSmall)
        } else {
            None
        }
    }

    /// Checks the parameters and dimensions before anything is allocated or drawn.
    pub fn check(&self, width: usize, height: usize) -> (r: Result<(), GenError>)
        ensures
            r is Ok <==> self.config_error(width as int, height as int) is None,
            r is Err ==> Some(r->Err_0) == self.config_error(width as int, height as int),
            r is Ok ==> self.valid_for(width as int, height as int),
    {
        if self.min_fly_width > self.max_fly_width {
            Err(GenError::FlyWidthOrder)
        } else if height <= FINISH_ROW || width <= 2 * (self.max_fly_width as usize) {
            Err(GenError::FlyGridTooSmall)
        } else {
            Ok(())
        }
    }

    /// Generates a fly level of `height` rows and `width` columns. Invalid
    /// parameters are refused before the random source is touched.
    pub fn generate(&self, rng: &mut ChaCha8Rng, width: usize, height: usize) -> (r: Result<MapLayout, GenError>)
        requires
            height * width <= isize::MAX,
        ensures
            r is Err <==> self.config_error(width as int, height as int) is Some,
            r is Err ==> Some(r->Err_0) == self.config_error(width as int, height as int)
                && *final(rng) == *old(rng),
            r is Ok ==> exists|rows: Seq<Corridor>|
                self.is_walk(width as int, height as int, rows) && #[trigger] is_fly_level(
                    r->Ok_0,
                    width as int,
                    height as int,
                    rows,
                ),
    {
        match self.check(width, height) {
            Err(e) => Err(e),
            Ok(()) => {
                let rows = self.plan_corridor(rng, width, height);
                proof {
                    assert(height <= height * width && width <= height * width) by (nonlinear_arith)
                        requires
                            height >= 1,
                            width >= 1,
                    ;
                }
                let grids = carve_fly(width, height, &rows);
                let m = compose_fly(grids);
                let r: Result<MapLayout, GenError> = Ok(m);
                assert(is_fly_level(r->Ok_0, width as int, height as int, rows@));
                r
            },
        }
    }
}

} // verus!
