use ddnet_map_gen::error::GenError;
use ddnet_map_gen::fly::{carve_fly, Corridor, FlyGenerator, WalkState, FINISH_ROW};
use ddnet_map_gen::grid::{replace_around_gametile, replace_gametile, TileGrid};
use ddnet_map_gen::layout::{quads_sky, Group, Layer, MapLayout, IMAGE_BASIC_FREEZE, IMAGE_GENERIC_UNHOOKABLE};
use ddnet_map_gen::maze::{find_first, find_last, maze_base, odd_dimension, place_markers, MazeGenerator};
use ddnet_map_gen::tiles::{
    DECO_CEILING, DECO_FREEZE, DECO_WALL, TILE_EMPTY, TILE_FINISH, TILE_FREEZE, TILE_HOOKABLE, TILE_SPAWN,
    TILE_START, TILE_UNHOOKABLE,
};
use rand_chacha::ChaCha8Rng;
use rand_seeder::Seeder;

fn seeded(seed: &str) -> ChaCha8Rng {
    Seeder::from(seed).make_rng()
}

fn physics(m: &MapLayout) -> &Group {
    assert_eq!(m.groups.len(), 2);
    assert!(!m.groups[0].physics);
    assert!(m.groups[1].physics);
    &m.groups[1]
}

fn game_grid(m: &MapLayout) -> &TileGrid {
    match &physics(m).layers[0] {
        Layer::Game(g) => g,
        _ => panic!("first physics layer is not the game layer"),
    }
}

fn front_grid(m: &MapLayout) -> &TileGrid {
    match &physics(m).layers[1] {
        Layer::Front(g) => g,
        _ => panic!("second physics layer is not the front layer"),
    }
}

fn cells(g: &TileGrid) -> Vec<Vec<u8>> {
    (0..g.height()).map(|y| (0..g.width()).map(|x| g.get(y, x)).collect()).collect()
}

fn count(g: &TileGrid, id: u8) -> usize {
    cells(g).iter().flatten().filter(|&&v| v == id).count()
}

fn fly(min: u16, max: u16) -> FlyGenerator {
    FlyGenerator { max_fly_width: max, min_fly_width: min }
}

#[test]
fn scenario_a_fly_level() {
    let mut rng = seeded("abc");
    let m = fly(3, 8).generate(&mut rng, 40, 50).unwrap();
    let game = game_grid(&m);
    assert_eq!(game.height(), 50);
    assert_eq!(game.width(), 40);
    for x in 0..40 {
        assert_eq!(game.get(48, x), TILE_UNHOOKABLE);
    }
    assert_eq!(game.get(47, 20), TILE_SPAWN);
    assert_eq!(count(game, TILE_SPAWN), 1);
}

#[test]
fn scenario_b_maze_level() {
    let mut rng = seeded("abc");
    let m = MazeGenerator.generate(&mut rng, 20, 21).unwrap();
    let game = game_grid(&m);
    assert_eq!(game.height(), 21);
    assert_eq!(game.width(), 21);
    assert_eq!(count(game, TILE_SPAWN), 1);
    assert_eq!(count(game, TILE_FINISH), 1);
    assert_eq!(TILE_FINISH, 34);
}

#[test]
fn scenario_c_width_order_refused_before_sampling() {
    let mut rng = seeded("abc");
    let untouched = rng.clone();
    let r = fly(9, 3).generate(&mut rng, 40, 50);
    assert!(matches!(r, Err(GenError::FlyWidthOrder)));
    assert_eq!(rng, untouched);
}

#[test]
fn fly_too_small_is_refused() {
    let mut rng = seeded("abc");
    let untouched = rng.clone();
    assert!(matches!(fly(3, 8).generate(&mut rng, 16, 50), Err(GenError::FlyGridTooSmall)));
    assert!(matches!(fly(3, 8).generate(&mut rng, 40, 10), Err(GenError::FlyGridTooSmall)));
    assert_eq!(rng, untouched);
    assert!(fly(3, 8).generate(&mut rng, 17, 11).is_ok());
}

#[test]
fn fly_is_deterministic() {
    let a = fly(3, 8).generate(&mut seeded("abc"), 40, 50).unwrap();
    let b = fly(3, 8).generate(&mut seeded("abc"), 40, 50).unwrap();
    for i in 0..4 {
        let ga = match &physics(&a).layers[i] {
            Layer::Game(g) | Layer::Front(g) => g,
            Layer::Tiles(t) => &t.tiles,
            Layer::Quads(_) => panic!("quads in the physics group"),
        };
        let gb = match &physics(&b).layers[i] {
            Layer::Game(g) | Layer::Front(g) => g,
            Layer::Tiles(t) => &t.tiles,
            Layer::Quads(_) => panic!("quads in the physics group"),
        };
        assert_eq!(cells(ga), cells(gb));
    }
}

#[test]
fn maze_is_deterministic() {
    let a = MazeGenerator.generate(&mut seeded("xyz"), 31, 25).unwrap();
    let b = MazeGenerator.generate(&mut seeded("xyz"), 31, 25).unwrap();
    assert_eq!(cells(game_grid(&a)), cells(game_grid(&b)));
}

#[test]
fn fly_rows_stay_in_bounds() {
    let (min, max, width, height) = (3i64, 8i64, 40usize, 50usize);
    let m = fly(3, 8).generate(&mut seeded("bounds"), width, height).unwrap();
    let game = game_grid(&m);
    for y in 0..height - 2 {
        let open: Vec<usize> =
            (0..width).filter(|&x| game.get(y, x) != TILE_FREEZE).collect();
        let lo = *open.first().unwrap() as i64;
        let hi = *open.last().unwrap() as i64;
        assert_eq!(open.len() as i64, hi - lo + 1);
        let half = (hi - lo) / 2;
        let center = lo + half;
        assert_eq!((hi - lo) % 2, 0);
        assert!(min <= half && half <= max);
        assert!(half <= center && center <= width as i64 - half - 1);
    }
}

#[test]
fn fly_fixed_rows() {
    let m = fly(2, 5).generate(&mut seeded("rows"), 30, 40).unwrap();
    let front = front_grid(&m);
    for x in 0..30 {
        assert_eq!(front.get(34, x), TILE_START);
        assert_eq!(front.get(FINISH_ROW, x), TILE_FINISH);
        assert_eq!(front.get(0, x), TILE_EMPTY);
        assert_eq!(game_grid(&m).get(39, x), TILE_EMPTY);
    }
    match &physics(&m).layers[2] {
        Layer::Tiles(t) => {
            assert_eq!(t.image, IMAGE_GENERIC_UNHOOKABLE);
            assert_eq!(t.tiles.get(38, 0), DECO_CEILING);
            assert_eq!((t.color.r, t.color.g, t.color.b, t.color.a), (255, 255, 255, 255));
        },
        _ => panic!("third layer is not a tiles layer"),
    }
    match &physics(&m).layers[3] {
        Layer::Tiles(t) => {
            assert_eq!(t.image, IMAGE_BASIC_FREEZE);
            assert_eq!((t.color.r, t.color.g, t.color.b, t.color.a), (0, 0, 0, 200));
            assert_eq!(t.tiles.get(0, 0), DECO_FREEZE);
        },
        _ => panic!("fourth layer is not a tiles layer"),
    }
}

#[test]
fn next_corridor_clamps() {
    let g = fly(3, 8);
    let c = g.next_corridor(40, Corridor { center: 20, half_width: 10 }, 1, -1);
    assert_eq!(c, Corridor { center: 21, half_width: 8 });
    let c = g.next_corridor(40, Corridor { center: 3, half_width: 3 }, -1, -1);
    assert_eq!(c, Corridor { center: 3, half_width: 3 });
    let c = g.next_corridor(40, Corridor { center: 31, half_width: 8 }, 1, 1);
    assert_eq!(c, Corridor { center: 31, half_width: 8 });
}

#[test]
fn carve_fly_exact() {
    let rows = vec![Corridor { center: 3, half_width: 1 }; 10];
    let g = carve_fly(7, 12, &rows);
    assert_eq!(cells(&g.game)[5], vec![9, 9, 0, 0, 0, 9, 9]);
    assert_eq!(cells(&g.game)[9], vec![9, 9, 0, 192, 0, 9, 9]);
    assert_eq!(cells(&g.game)[10], vec![3; 7]);
    assert_eq!(cells(&g.game)[11], vec![0; 7]);
    assert_eq!(cells(&g.freeze)[0], vec![4, 4, 0, 0, 0, 4, 4]);
    assert_eq!(cells(&g.front)[6], vec![TILE_START; 7]);
    assert_eq!(cells(&g.front)[10], vec![TILE_FINISH; 7]);
    assert_eq!(cells(&g.unhookable)[10], vec![2; 7]);
    assert_eq!(cells(&g.unhookable)[9], vec![0; 7]);
}

#[test]
fn odd_dimensions() {
    assert_eq!(odd_dimension(20), 21);
    assert_eq!(odd_dimension(21), 21);
    assert_eq!(odd_dimension(0), 1);
}

#[test]
fn maze_too_small_is_refused() {
    let mut rng = seeded("small");
    let untouched = rng.clone();
    assert!(matches!(MazeGenerator.generate(&mut rng, 3, 9), Err(GenError::MazeTooSmall)));
    assert!(matches!(MazeGenerator.generate(&mut rng, 9, 2), Err(GenError::MazeTooSmall)));
    assert_eq!(rng, untouched);
    assert!(MazeGenerator.generate(&mut rng, 4, 4).is_ok());
}

#[test]
fn maze_markers_follow_raster_order() {
    let m = MazeGenerator.generate(&mut seeded("raster"), 15, 15).unwrap();
    let game = cells(game_grid(&m));
    let walls = match &physics(&m).layers[1] {
        Layer::Tiles(t) => cells(&t.tiles),
        _ => panic!("second layer is not a tiles layer"),
    };
    let open: Vec<(usize, usize)> = (0..15)
        .flat_map(|y| (0..15).map(move |x| (y, x)))
        .filter(|&(y, x)| walls[y][x] == 0)
        .collect();
    assert_eq!(open[0], (1, 1));
    assert_eq!(game[1][1], TILE_SPAWN);
    let last = *open.last().unwrap();
    assert_eq!(game[last.0][last.1], TILE_FINISH);
    for y in 0..15 {
        for x in 0..15 {
            assert_eq!(walls[y][x] == DECO_WALL, game[y][x] == TILE_HOOKABLE);
        }
    }
}

#[test]
fn maze_base_transposes() {
    let columns = vec![vec![1, 0, 1], vec![0, 1, 1]];
    let g = maze_base(&columns, 2, 3);
    assert_eq!(cells(&g.game), vec![vec![1, 0], vec![0, 1], vec![1, 1]]);
    assert_eq!(cells(&g.walls), vec![vec![9, 0], vec![0, 9], vec![9, 9]]);
}

fn grid_of(rows: &[&[u8]]) -> TileGrid {
    let mut g = TileGrid::new(rows.len(), rows[0].len());
    for (y, row) in rows.iter().enumerate() {
        for (x, &v) in row.iter().enumerate() {
            g.set(y, x, v);
        }
    }
    g
}

#[test]
fn markers_on_handmade_grid() {
    let mut g = grid_of(&[&[1, 1, 1, 1], &[1, 0, 0, 1], &[1, 0, 1, 0], &[0, 1, 0, 0]]);
    let (spawn, finish) = place_markers(&mut g);
    assert_eq!(spawn, Some((1, 1)));
    assert_eq!(finish, Some((3, 3)));
    assert_eq!(
        cells(&g),
        vec![vec![1, 1, 1, 1], vec![1, 192, 33, 1], vec![1, 33, 1, 0], vec![0, 1, 0, 34]]
    );
}

#[test]
fn markers_when_every_open_cell_is_taken() {
    let mut g = grid_of(&[&[1, 1, 1], &[1, 0, 0], &[1, 1, 1]]);
    let (spawn, finish) = place_markers(&mut g);
    assert_eq!(spawn, Some((1, 1)));
    assert_eq!(finish, None);
    assert_eq!(cells(&g), vec![vec![1, 1, 1], vec![1, 192, 33], vec![1, 1, 1]]);
    let mut walls = grid_of(&[&[1, 1], &[1, 1]]);
    assert_eq!(place_markers(&mut walls), (None, None));
}

#[test]
fn find_first_and_last() {
    let g = grid_of(&[&[1, 5, 1], &[5, 1, 5]]);
    assert_eq!(find_first(&g, 5), Some((0, 1)));
    assert_eq!(find_last(&g, 5), Some((1, 2)));
    assert_eq!(find_first(&g, 7), None);
    assert_eq!(find_last(&g, 7), None);
}

#[test]
fn replace_around_corner() {
    let mut g = grid_of(&[&[0, 0, 0], &[0, 2, 0], &[0, 0, 0]]);
    replace_around_gametile(&mut g, 0, 0, 0, 7);
    assert_eq!(cells(&g), vec![vec![0, 7, 0], vec![7, 2, 0], vec![0, 0, 0]]);
    replace_around_gametile(&mut g, 1, 1, 0, 8);
    assert_eq!(cells(&g), vec![vec![8, 7, 8], vec![7, 2, 8], vec![8, 8, 8]]);
    replace_gametile(&mut g, 1, 1, 2, 4);
    replace_gametile(&mut g, 0, 0, 2, 4);
    assert_eq!(g.get(1, 1), 4);
    assert_eq!(g.get(0, 0), 8);
}

#[test]
fn sky_group() {
    let g = quads_sky();
    assert!(!g.physics);
    assert_eq!((g.parallax_x, g.parallax_y), (0, 0));
    assert_eq!(g.layers.len(), 1);
    match &g.layers[0] {
        Layer::Quads(q) => {
            assert_eq!((q.width, q.height), (50, 30));
            assert_eq!((q.top.r, q.top.g, q.top.b, q.top.a), (94, 132, 174, 255));
            assert_eq!((q.bottom.r, q.bottom.g, q.bottom.b, q.bottom.a), (204, 232, 255, 255));
        },
        _ => panic!("sky layer is not a quads layer"),
    }
}

#[test]
fn new_grid_is_empty() {
    let g = TileGrid::new(3, 4);
    assert_eq!(cells(&g), vec![vec![0; 4]; 3]);
}

#[test]
fn next_state_keeps_direction_until_countdown_ends() {
    let g = fly(3, 8);
    let s = WalkState { corridor: Corridor { center: 20, half_width: 5 }, direction: 1, countdown: 2 };
    let n = g.next_state(40, s, 7, -1, 0);
    assert_eq!(n, WalkState { corridor: Corridor { center: 21, half_width: 5 }, direction: 1, countdown: 1 });
    let s = WalkState { corridor: Corridor { center: 20, half_width: 5 }, direction: 1, countdown: 0 };
    let n = g.next_state(40, s, 7, -1, 1);
    assert_eq!(n, WalkState { corridor: Corridor { center: 19, half_width: 6 }, direction: -1, countdown: 6 });
}

#[test]
fn replace_around_center_outside_grid() {
    let mut g = grid_of(&[&[0, 0, 0], &[0, 0, 0]]);
    replace_around_gametile(&mut g, 3, 2, 0, 5);
    assert_eq!(cells(&g), vec![vec![0, 0, 0], vec![0, 0, 5]]);
    replace_around_gametile(&mut g, 10, 10, 0, 6);
    assert_eq!(cells(&g), vec![vec![0, 0, 0], vec![0, 0, 5]]);
}

#[test]
fn maze_markers_at_corners() {
    let m = MazeGenerator.generate(&mut seeded("abc"), 20, 21).unwrap();
    let game = game_grid(&m);
    assert_eq!(game.get(1, 1), TILE_SPAWN);
    assert_eq!(game.get(19, 19), TILE_FINISH);
    for i in 0..21 {
        assert_eq!(game.get(0, i), TILE_HOOKABLE);
        assert_eq!(game.get(20, i), TILE_HOOKABLE);
        assert_eq!(game.get(i, 0), TILE_HOOKABLE);
        assert_eq!(game.get(i, 20), TILE_HOOKABLE);
    }
}
