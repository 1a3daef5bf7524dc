use vstd::prelude::*;
use irrgarten::{Maze, MazeGenerationError};
use rand_chacha::ChaCha8Rng;
use crate::error::GenError;
use crate::layout::{
    is_physics_group, is_sky_group, physics_group, sky_then, tiles_layer, white, Layer, MapLayout,
    TilesLayer, IMAGE_GENERIC_UNHOOKABLE,
};
use crate::grid::{adjacent, replace_around_gametile, TileGrid};
use crate::tiles::{DECO_WALL, TILE_EMPTY, TILE_FINISH, TILE_HOOKABLE, TILE_SPAWN, TILE_START};

verus! {

#[verifier::external_type_specification]
#[verifier::external_body]
pub struct ExMazeGenerationError(MazeGenerationError);

/// The smallest side that a maze may have.
pub const MIN_MAZE_SIDE: usize = 5;

/// `cells` holds `width` columns of `height` cells each.
pub open spec fn is_columns(cells: Seq<Seq<u8>>, width: int, height: int) -> bool {
    &&& cells.len() == width
    &&& forall|x: int| 0 <= x < width ==> #[trigger] cells[x].len() == height
}

/// `cells` is a maze of `width` by `height`: every cell open (0) or wall (1),
/// every cell with an odd column and an odd row open, and the border wall.
pub open spec fn is_maze(cells: Seq<Seq<u8>>, width: int, height: int) -> bool {
    &&& is_columns(cells, width, height)
    &&& forall|x: int, y: int|
        0 <= x < width && 0 <= y < height ==> #[trigger] cells[x][y] <= TILE_HOOKABLE
    &&& forall|x: int, y: int|
        0 <= x < width && 0 <= y < height && x % 2 == 1 && y % 2 == 1 ==> #[trigger] cells[x][y] == 0
    &&& forall|x: int, y: int|
        0 <= x < width && 0 <= y < height && (x == 0 || y == 0 || x == width - 1 || y == height - 1)
            ==> #[trigger] cells[x][y] == TILE_HOOKABLE
}

/// Relies on `irrgarten::Maze::new`, which accepts odd sides of at least five
/// and refuses the rest before any drawing, then on `Maze::generate`, whose
/// backtracker starts at column 1, row 1, opens every cell with odd column and
/// odd row and the cells between them, and leaves the border wall, and on
/// iterating the maze by columns.
#[verifier::external_body]
fn build_maze(width: usize, height: usize, rng: &mut ChaCha8Rng) -> (r: Result<Vec<Vec<u8>>, MazeGenerationError>)
    ensures
        r is Ok <==> (width >= MIN_MAZE_SIDE && width % 2 == 1 && height >= MIN_MAZE_SIDE && height % 2
            == 1),
        r is Ok ==> is_maze(r->Ok_0@.map_values(|c: Vec<u8>| c@), width as int, height as int),
        r is Err ==> *final(rng) == *old(rng),
{
    match Maze::new(width, height) {
        Ok(m) => Ok(m.generate(rng).into_iter().collect()),
        Err(e) => Err(e),
    }
}

/// `n`, or `n + 1` where `n` is even.
pub open spec fn odd_side(n: int) -> int {
    if n % 2 == 0 {
        n + 1
    } else {
        n
    }
}

/// `n`, or `n + 1` where `n` is even: a maze needs odd sides.
pub fn odd_dimension(n: usize) -> (r: usize)
    requires
        n < usize::MAX,
    ensures
        r == odd_side(n as int),
{
    if n % 2 == 0 {
        n + 1
    } else {
        n
    }
}

/// The grids of a maze level before its markers are placed.
pub struct MazeGrids {
    /// Gameplay tiles: the maze's value as id, open is empty and wall is hookable.
    pub game: TileGrid,
    /// Decoration of the walls.
    pub walls: TileGrid,
}

impl MazeGrids {
    /// The grids are `height` by `width` and hold the maze `cells` (given
    /// column by column) row by row.
    pub open spec fn built_from(&self, cells: Seq<Seq<u8>>, width: int, height: int) -> bool {
        &&& self.game.wf() && self.game.spec_height() == height && self.game.spec_width() == width
        &&& self.walls.wf() && self.walls.spec_height() == height && self.walls.spec_width() == width
        &&& forall|y: int, x: int|
            self.game.in_bounds(y, x) ==> #[trigger] self.game.id_at(y, x) == cells[x][y]
        &&& forall|y: int, x: int|
            self.walls.in_bounds(y, x) ==> #[trigger] self.walls.id_at(y, x) == if cells[x][y]
                == TILE_HOOKABLE {
                DECO_WALL
            } else {
                0
            }
    }
}

impl MazeGrids {
    /// The grids are a function of the maze: two builds of the same cells
    /// hold the same ids.
    pub proof fn lemma_built_deterministic(a: MazeGrids, b: MazeGrids, cells: Seq<Seq<u8>>, width: int, height: int)
        requires
            a.built_from(cells, width, height),
            b.built_from(cells, width, height),
        ensures
            a.game@ == b.game@,
            a.walls@ == b.walls@,
    {
        TileGrid::lemma_same_cells(a.game, b.game);
        TileGrid::lemma_same_cells(a.walls, b.walls);
    }
}

/// Turns the maze `cells`, indexed column first, into grids indexed row first.
pub fn maze_base(cells: &Vec<Vec<u8>>, width: usize, height: usize) -> (r: MazeGrids)
    requires
        is_columns(cells@.map_values(|c: Vec<u8>| c@), width as int, height as int),
        height <= isize::MAX,
        width <= isize::MAX,
        height * width <= isize::MAX,
    ensures
        r.built_from(cells@.map_values(|c: Vec<u8>| c@), width as int, height as int),
{
    let ghost cs = cells@.map_values(|c: Vec<u8>| c@);
    let mut game = TileGrid::new(height, width);
    let mut walls = TileGrid::new(height, width);
    let mut y: usize = 0;
    while y < height
        invariant
            is_columns(cs, width as int, height as int),
            cs == cells@.map_values(|c: Vec<u8>| c@),
            y <= height,
            game.wf() && game.spec_height() == height && game.spec_width() == width,
            walls.wf() && walls.spec_height() == height && walls.spec_width() == width,
            forall|a: int, b: int|
                game.in_bounds(a, b) ==> #[trigger] game.id_at(a, b) == if a < y {
                    cs[b][a]
                } else {
                    0
                },
            forall|a: int, b: int|
                walls.in_bounds(a, b) ==> #[trigger] walls.id_at(a, b) == if a < y && cs[b][a]
                    == TILE_HOOKABLE {
                    DECO_WALL
                } else {
                    0
                },
        decreases height - y,
    {
        let mut x: usize = 0;
        while x < width
            invariant
                is_columns(cs, width as int, height as int),
                cs == cells@.map_values(|c: Vec<u8>| c@),
                y < height,
                x <= width,
                game.wf() && game.spec_height() == height && game.spec_width() == width,
                walls.wf() && walls.spec_height() == height && walls.spec_width() == width,
                forall|a: int, b: int|
                    game.in_bounds(a, b) ==> #[trigger] game.id_at(a, b) == if a < y || (a == y
                        && b < x) {
                        cs[b][a]
                    } else {
                        0
                    },
                forall|a: int, b: int|
                    walls.in_bounds(a, b) ==> #[trigger] walls.id_at(a, b) == if (a < y || (a == y
                        && b < x)) && cs[b][a] == TILE_HOOKABLE {
                        DECO_WALL
                    } else {
                        0
                    },
            decreases width - x,
        {
            assert(cs[x as int] == cells[x as int]@);
            let v = cells[x][y];
            game.set(y, x, v);
            if v == TILE_HOOKABLE {
                walls.set(y, x, DECO_WALL);
            }
            x = x + 1;
        }
        y = y + 1;
    }
    MazeGrids { game, walls }
}

/// Cell `(y1, x1)` comes before cell `(y2, x2)` in row-major order.
pub open spec fn before(y1: int, x1: int, y2: int, x2: int) -> bool {
    y1 < y2 || (y1 == y2 && x1 < x2)
}

/// `(y, x)` is the first cell of `g` in row-major order whose id is `id`.
pub open spec fn is_first_with(g: TileGrid, id: u8, y: int, x: int) -> bool {
    &&& g.in_bounds(y, x)
    &&& g.id_at(y, x) == id
    &&& forall|a: int, b: int| g.in_bounds(a, b) && before(a, b, y, x) ==> #[trigger] g.id_at(a, b) != id
}

/// `(y, x)` is the last cell of `g` in row-major order whose id is `id`.
pub open spec fn is_last_with(g: TileGrid, id: u8, y: int, x: int) -> bool {
    &&& g.in_bounds(y, x)
    &&& g.id_at(y, x) == id
    &&& forall|a: int, b: int| g.in_bounds(a, b) && before(y, x, a, b) ==> #[trigger] g.id_at(a, b) != id
}

/// No cell of `g` has the id `id`.
pub open spec fn lacks(g: TileGrid, id: u8) -> bool {
    forall|a: int, b: int| g.in_bounds(a, b) ==> #[trigger] g.id_at(a, b) != id
}

/// The first cell of `g` in row-major order whose id is `id`, if any.
pub fn find_first(g: &TileGrid, id: u8) -> (r: Option<(usize, usize)>)
    requires
        g.wf(),
    ensures
        r is Some ==> is_first_with(*g, id, r->Some_0.0 as int, r->Some_0.1 as int),
        r is None ==> lacks(*g, id),
{
    let height = g.height();
    let width = g.width();
    let mut y: usize = 0;
    while y < height
        invariant
            g.wf(),
            height == g.spec_height(),
            width == g.spec_width(),
            y <= height,
            forall|a: int, b: int| g.in_bounds(a, b) && a < y ==> #[trigger] g.id_at(a, b) != id,
        decreases height - y,
    {
        let mut x: usize = 0;
        while x < width
            invariant
                g.wf(),
                height == g.spec_height(),
                width == g.spec_width(),
                y < height,
                x <= width,
                forall|a: int, b: int|
                    g.in_bounds(a, b) && (a < y || (a == y && b < x)) ==> #[trigger] g.id_at(a, b)
                        != id,
            decreases width - x,
        {
            if g.get(y, x) == id {
                return Some((y, x));
            }
            x = x + 1;
        }
        y = y + 1;
    }
    None
}

/// The last cell of `g` in row-major order whose id is `id`, if any.
pub fn find_last(g: &TileGrid, id: u8) -> (r: Option<(usize, usize)>)
    requires
        g.wf(),
    ensures
        r is Some ==> is_last_with(*g, id, r->Some_0.0 as int, r->Some_0.1 as int),
        r is None ==> lacks(*g, id),
{
    let height = g.height();
    let width = g.width();
    let mut y: usize = height;
    while y > 0
        invariant
            g.wf(),
            height == g.spec_height(),
            width == g.spec_width(),
            y <= height,
            forall|a: int, b: int| g.in_bounds(a, b) && a >= y ==> #[trigger] g.id_at(a, b) != id,
        decreases y,
    {
        let mut x: usize = width;
        while x > 0
            invariant
                g.wf(),
                height == g.spec_height(),
                width == g.spec_width(),
                0 < y <= height,
                x <= width,
                forall|a: int, b: int|
                    g.in_bounds(a, b) && (a >= y || (a == y - 1 && b >= x)) ==> #[trigger] g.id_at(
                        a,
                        b,
                    ) != id,
            decreases x,
        {
            if g.get(y - 1, x - 1) == id {
                return Some((y - 1, x - 1));
            }
            x = x - 1;
        }
        y = y - 1;
    }
    None
}

/// Id of `(y, x)` once the spawn, if any, is placed: the spawn itself, and a
/// start marker on each empty cell around it.
pub open spec fn spawn_marked_id(g: TileGrid, spawn: Option<(usize, usize)>, y: int, x: int) -> u8 {
    match spawn {
        None => g.id_at(y, x),
        Some(p) => if y == p.0 && x == p.1 {
            TILE_SPAWN
        } else if adjacent(y, x, p.0 as int, p.1 as int) && g.id_at(y, x) == TILE_EMPTY {
            TILE_START
        } else {
            g.id_at(y, x)
        },
    }
}

/// `new` is `old` with its markers placed at `spawn` and `finish`: the spawn
/// on the first empty cell in row-major order, start markers on the empty
/// cells around it, and then the finish on the last cell in row-major order
/// that is still empty.
pub open spec fn markers_placed(
    old: TileGrid,
    new: TileGrid,
    spawn: Option<(usize, usize)>,
    finish: Option<(usize, usize)>,
) -> bool {
    &&& new.wf()
    &&& new.spec_height() == old.spec_height()
    &&& new.spec_width() == old.spec_width()
    &&& spawn is None ==> lacks(old, TILE_EMPTY)
    &&& spawn is Some ==> is_first_with(old, TILE_EMPTY, spawn->Some_0.0 as int, spawn->Some_0.1 as int)
    &&& finish is None ==> forall|a: int, b: int|
        old.in_bounds(a, b) ==> #[trigger] spawn_marked_id(old, spawn, a, b) != TILE_EMPTY
    &&& finish is Some ==> {
        let q = finish->Some_0;
        &&& old.in_bounds(q.0 as int, q.1 as int)
        &&& spawn_marked_id(old, spawn, q.0 as int, q.1 as int) == TILE_EMPTY
        &&& forall|a: int, b: int|
            old.in_bounds(a, b) && before(q.0 as int, q.1 as int, a, b) ==> #[trigger] spawn_marked_id(
                old,
                spawn,
                a,
                b,
            ) != TILE_EMPTY
    }
    &&& forall|y: int, x: int|
        #![trigger new.id_at(y, x)]
        new.in_bounds(y, x) ==> new.id_at(y, x) == if finish is Some && y == finish->Some_0.0 && x
            == finish->Some_0.1 {
            TILE_FINISH
        } else {
            spawn_marked_id(old, spawn, y, x)
        }
}

/// Places the spawn, start and finish markers on a maze's game grid, and
/// returns where the spawn and the finish went.
pub fn place_markers(game: &mut TileGrid) -> (r: (Option<(usize, usize)>, Option<(usize, usize)>))
    requires
        old(game).wf(),
    ensures
        markers_placed(*old(game), *final(game), r.0, r.1),
{
    let ghost start = *game;
    let spawn = find_first(game, TILE_EMPTY);
    match spawn {
        Some((y, x)) => {
            game.set(y, x, TILE_SPAWN);
            replace_around_gametile(game, x, y, TILE_EMPTY, TILE_START);
        },
        None => {},
    }
    assert forall|a: int, b: int| game.in_bounds(a, b) implies #[trigger] game.id_at(a, b)
        == spawn_marked_id(start, spawn, a, b) by {}
    let ghost mid = *game;
    let finish = find_last(game, TILE_EMPTY);
    match finish {
        Some((y, x)) => {
            game.set(y, x, TILE_FINISH);
        },
        None => {},
    }
    assert forall|a: int, b: int|
        start.in_bounds(a, b) && finish is Some && before(
            finish->Some_0.0 as int,
            finish->Some_0.1 as int,
            a,
            b,
        ) implies #[trigger] spawn_marked_id(start, spawn, a, b) != TILE_EMPTY by {
        assert(mid.id_at(a, b) == spawn_marked_id(start, spawn, a, b));
    }
    assert forall|a: int, b: int| finish is None && start.in_bounds(a, b) implies #[trigger] spawn_marked_id(
        start,
        spawn,
        a,
        b,
    ) != TILE_EMPTY by {
        assert(mid.id_at(a, b) == spawn_marked_id(start, spawn, a, b));
    }
    (spawn, finish)
}

/// With the first empty cell of `old` in row-major order at `(r0, c0)` and
/// the last at `(r1, c1)`, neither the same cell nor neighbors, the spawn
/// goes to `(r0, c0)` and the finish to `(r1, c1)`.
pub proof fn lemma_raster_placement(
    old: TileGrid,
    new: TileGrid,
    spawn: Option<(usize, usize)>,
    finish: Option<(usize, usize)>,
    r0: int,
    c0: int,
    r1: int,
    c1: int,
)
    requires
        markers_placed(old, new, spawn, finish),
        is_first_with(old, TILE_EMPTY, r0, c0),
        is_last_with(old, TILE_EMPTY, r1, c1),
        !(r1 == r0 && c1 == c0),
        !adjacent(r1, c1, r0, c0),
    ensures
        spawn == Some((r0 as usize, c0 as usize)),
        finish == Some((r1 as usize, c1 as usize)),
        new.id_at(r0, c0) == TILE_SPAWN,
        new.id_at(r1, c1) == TILE_FINISH,
{
    assert(spawn is Some) by {
        if spawn is None {
            assert(old.id_at(r0, c0) != TILE_EMPTY);
        }
    }
    let p = spawn->Some_0;
    assert(p.0 == r0 && p.1 == c0) by {
        if before(p.0 as int, p.1 as int, r0, c0) {
            assert(old.id_at(p.0 as int, p.1 as int) != TILE_EMPTY);
        } else if before(r0, c0, p.0 as int, p.1 as int) {
            assert(old.id_at(r0, c0) != TILE_EMPTY);
        }
    }
    assert(spawn_marked_id(old, spawn, r1, c1) == TILE_EMPTY);
    assert(finish is Some) by {
        if finish is None {
            assert(spawn_marked_id(old, spawn, r1, c1) != TILE_EMPTY);
        }
    }
    let q = finish->Some_0;
    assert(old.id_at(q.0 as int, q.1 as int) == TILE_EMPTY);
    assert(q.0 == r1 && q.1 == c1) by {
        if before(q.0 as int, q.1 as int, r1, c1) {
            assert(spawn_marked_id(old, spawn, r1, c1) != TILE_EMPTY);
        } else if before(r1, c1, q.0 as int, q.1 as int) {
            assert(old.id_at(q.0 as int, q.1 as int) != TILE_EMPTY);
        }
    }
    assert(new.in_bounds(r0, c0));
    assert(new.in_bounds(r1, c1));
}

/// Marker placement is a function of the grid: placing the markers on two
/// grids that hold the same ids puts them in the same cells and gives the
/// same grid.
pub proof fn lemma_placement_deterministic(
    old1: TileGrid,
    new1: TileGrid,
    spawn1: Option<(usize, usize)>,
    finish1: Option<(usize, usize)>,
    old2: TileGrid,
    new2: TileGrid,
    spawn2: Option<(usize, usize)>,
    finish2: Option<(usize, usize)>,
)
    requires
        old1.wf(),
        old2.wf(),
        old1@ == old2@,
        old1.spec_height() == old2.spec_height(),
        old1.spec_width() == old2.spec_width(),
        markers_placed(old1, new1, spawn1, finish1),
        markers_placed(old2, new2, spawn2, finish2),
    ensures
        spawn1 == spawn2,
        finish1 == finish2,
        new1@ == new2@,
{
    assert(spawn1 is Some <==> spawn2 is Some) by {
        if spawn1 is Some && spawn2 is None {
            let p = spawn1->Some_0;
            assert(old2.id_at(p.0 as int, p.1 as int) != TILE_EMPTY);
        }
        if spawn2 is Some && spawn1 is None {
            let p = spawn2->Some_0;
            assert(old1.id_at(p.0 as int, p.1 as int) != TILE_EMPTY);
        }
    }
    if spawn1 is Some {
        let p = spawn1->Some_0;
        let q = spawn2->Some_0;
        if before(p.0 as int, p.1 as int, q.0 as int, q.1 as int) {
            assert(old2.id_at(p.0 as int, p.1 as int) != TILE_EMPTY);
        } else if before(q.0 as int, q.1 as int, p.0 as int, p.1 as int) {
            assert(old1.id_at(q.0 as int, q.1 as int) != TILE_EMPTY);
        }
    }
    assert(spawn1 == spawn2);
    assert(finish1 is Some <==> finish2 is Some) by {
        if finish1 is Some && finish2 is None {
            let p = finish1->Some_0;
            assert(spawn_marked_id(old2, spawn2, p.0 as int, p.1 as int) != TILE_EMPTY);
        }
        if finish2 is Some && finish1 is None {
            let p = finish2->Some_0;
            assert(spawn_marked_id(old1, spawn1, p.0 as int, p.1 as int) != TILE_EMPTY);
        }
    }
    if finish1 is Some {
        let p = finish1->Some_0;
        let q = finish2->Some_0;
        if before(p.0 as int, p.1 as int, q.0 as int, q.1 as int) {
            assert(spawn_marked_id(old1, spawn1, q.0 as int, q.1 as int) != TILE_EMPTY);
        } else if before(q.0 as int, q.1 as int, p.0 as int, p.1 as int) {
            assert(spawn_marked_id(old2, spawn2, p.0 as int, p.1 as int) != TILE_EMPTY);
        }
    }
    assert(finish1 == finish2);
    TileGrid::lemma_same_cells(new1, new2);
}

/// Generator of a maze level.
pub struct MazeGenerator;

/// The physics layers of a maze level, in order: game, then the wall
/// decoration over the unhookable image.
pub open spec fn maze_layers(game: TileGrid, walls: TileGrid) -> Seq<Layer> {
    seq![
        Layer::Game(game),
        Layer::Tiles(TilesLayer { tiles: walls, image: IMAGE_GENERIC_UNHOOKABLE, color: white() }),
    ]
}

/// `m` is the sky group followed by the physics group of the maze `cells`
/// (column by column), with its markers placed.
pub open spec fn is_maze_level(m: MapLayout, cells: Seq<Seq<u8>>, width: int, height: int) -> bool {
    &&& m.groups@.len() == 2
    &&& is_sky_group(m.groups@[0])
    &&& exists|base: MazeGrids, game: TileGrid, spawn: Option<(usize, usize)>, finish: Option<(usize, usize)>|
        base.built_from(cells, width, height) && #[trigger] markers_placed(base.game, game, spawn, finish)
            && is_physics_group(m.groups@[1], maze_layers(game, base.walls))
}

/// In a level built from a maze, the game grid holds exactly one spawn, at
/// column 1, row 1, and exactly one finish, at column `width - 2`, row
/// `height - 2`.
pub proof fn lemma_maze_level_markers(m: MapLayout, cells: Seq<Seq<u8>>, width: int, height: int)
    requires
        width >= MIN_MAZE_SIDE && width % 2 == 1,
        height >= MIN_MAZE_SIDE && height % 2 == 1,
        is_maze(cells, width, height),
        is_maze_level(m, cells, width, height),
    ensures
        m.groups@[1].layers@.len() == 2,
        m.groups@[1].layers@[0] is Game,
        ({
            let g = m.groups@[1].layers@[0]->Game_0;
            &&& g.wf() && g.spec_height() == height && g.spec_width() == width
            &&& forall|y: int, x: int|
                g.in_bounds(y, x) ==> (#[trigger] g.id_at(y, x) == TILE_SPAWN <==> (y == 1 && x == 1))
            &&& forall|y: int, x: int|
                g.in_bounds(y, x) ==> (#[trigger] g.id_at(y, x) == TILE_FINISH <==> (y == height - 2
                    && x == width - 2))
        }),
{
    let (base, game, spawn, finish) = choose|
        base: MazeGrids,
        game: TileGrid,
        spawn: Option<(usize, usize)>,
        finish: Option<(usize, usize)>,
    |
        base.built_from(cells, width, height) && #[trigger] markers_placed(base.game, game, spawn, finish)
            && is_physics_group(m.groups@[1], maze_layers(game, base.walls));
    let old = base.game;
    assert(m.groups@[1].layers@[0] == Layer::Game(game));
    assert(old.id_at(1, 1) == cells[1][1]);
    assert forall|a: int, b: int| old.in_bounds(a, b) && before(a, b, 1, 1) implies #[trigger] old.id_at(a, b)
        != TILE_EMPTY by {
        assert(cells[b][a] == TILE_HOOKABLE);
    }
    assert(is_first_with(old, TILE_EMPTY, 1, 1));
    assert(old.id_at(height - 2, width - 2) == cells[width - 2][height - 2]);
    assert forall|a: int, b: int|
        old.in_bounds(a, b) && before(height - 2, width - 2, a, b) implies #[trigger] old.id_at(a, b)
        != TILE_EMPTY by {
        assert(cells[b][a] == TILE_HOOKABLE);
    }
    assert(is_last_with(old, TILE_EMPTY, height - 2, width - 2));
    lemma_raster_placement(old, game, spawn, finish, 1, 1, height - 2, width - 2);
    assert forall|y: int, x: int| game.in_bounds(y, x) implies (#[trigger] game.id_at(y, x) == TILE_SPAWN
        <==> (y == 1 && x == 1)) && (game.id_at(y, x) == TILE_FINISH <==> (y == height - 2 && x == width
        - 2)) by {
        assert(old.id_at(y, x) == cells[x][y]);
    }
}

/// Wraps the grids of a maze level into its groups.
pub fn compose_maze(game: TileGrid, walls: TileGrid) -> (r: MapLayout)
    ensures
        r.groups@.len() == 2,
        is_sky_group(r.groups@[0]),
        is_physics_group(r.groups@[1], maze_layers(game, walls)),
{
    let ghost g = game;
    let ghost w = walls;
    let mut physics = physics_group();
    physics.layers.push(Layer::Game(game));
    physics.layers.push(Layer::Tiles(tiles_layer(walls, IMAGE_GENERIC_UNHOOKABLE)));
    assert(physics.layers@ =~= maze_layers(g, w));
    sky_then(physics)
}

impl MazeGenerator {
    /// Generates a maze level. An even side is made odd by adding one; a
    /// side under five is refused before the random source is touched.
    pub fn generate(&self, rng: &mut ChaCha8Rng, width: usize, height: usize) -> (r: Result<MapLayout, GenError>)
        requires
            width < usize::MAX,
            height < usize::MAX,
            (height + 1) * (width + 1) <= isize::MAX,
        ensures
            r is Err <==> (odd_side(width as int) < MIN_MAZE_SIDE || odd_side(height as int) < MIN_MAZE_SIDE),
            r is Err ==> r->Err_0 == GenError::MazeTooSmall && *final(rng) == *old(rng),
            r is Ok ==> exists|cells: Seq<Seq<u8>>|
                is_maze(cells, odd_side(width as int), odd_side(height as int)) && #[trigger] is_maze_level(
                    r->Ok_0,
                    cells,
                    odd_side(width as int),
                    odd_side(height as int),
                ),
    {
        let odd_width = odd_dimension(width);
        let odd_height = odd_dimension(height);
        proof {
            assert(odd_height * odd_width <= (height + 1) * (width + 1)) by (nonlinear_arith)
                requires
                    0 <= odd_height <= height + 1,
                    0 <= odd_width <= width + 1,
            ;
            assert(odd_height <= odd_height * odd_width && odd_width <= odd_height * odd_width)
                by (nonlinear_arith)
                requires
                    odd_height >= 1,
                    odd_width >= 1,
            ;
        }
        let width = odd_width;
        let height = odd_height;
        match build_maze(width, height, rng) {
            Err(_) => Err(GenError::MazeTooSmall),
            Ok(cells) => {
                let ghost cs = cells@.map_values(|c: Vec<u8>| c@);
                let base = maze_base(&cells, width, height);
                let ghost b = base;
                let MazeGrids { game, walls } = base;
                let mut game = game;
                let (spawn, finish) = place_markers(&mut game);
                assert(markers_placed(b.game, game, spawn, finish));
                let m = compose_maze(game, walls);
                let r: Result<MapLayout, GenError> = Ok(m);
                assert(is_maze_level(r->Ok_0, cs, width as int, height as int));
                r
            },
        }
    }
}

} // verus!
