use vstd::prelude::*;
use ndarray::Array2;

verus! {

/// A two-dimensional `ndarray` array of tile ids, indexed by (row, column).
#[verifier::external_body]
pub struct TileArray {
    cells: Array2<u8>,
}

/// The tile ids that the array holds, row by row.
pub uninterp spec fn array_ids(a: TileArray) -> Seq<Seq<u8>>;

/// Relies on `ndarray::Array2::zeros`: a `height` by `width` array of zeros;
/// it panics where a side or the number of cells exceeds `isize::MAX`.
#[verifier::external_body]
fn array_zeros(height: usize, width: usize) -> (r: TileArray)
    requires
        height <= isize::MAX,
        width <= isize::MAX,
        height * width <= isize::MAX,
    ensures
        array_ids(r).len() == height,
        forall|y: int| 0 <= y < height ==> #[trigger] array_ids(r)[y].len() == width,
        forall|y: int, x: int|
            0 <= y < height && 0 <= x < width ==> #[trigger] array_ids(r)[y][x] == 0,
{
    TileArray { cells: Array2::zeros((height, width)) }
}

/// Relies on indexing an `ndarray::Array2` by `(row, column)`: the id stored there.
#[verifier::external_body]
fn array_get(a: &TileArray, y: usize, x: usize) -> (r: u8)
    requires
        y < array_ids(*a).len(),
        x < array_ids(*a)[y as int].len(),
    ensures
        r == array_ids(*a)[y as int][x as int],
{
    a.cells[(y, x)]
}

/// Relies on mutable indexing of an `ndarray::Array2` by `(row, column)`: only
/// that cell changes.
#[verifier::external_body]
fn array_set(a: &mut TileArray, y: usize, x: usize, id: u8)
    requires
        y < array_ids(*old(a)).len(),
        x < array_ids(*old(a))[y as int].len(),
    ensures
        array_ids(*final(a)) == array_ids(*old(a)).update(
            y as int,
            array_ids(*old(a))[y as int].update(x as int, id),
        ),
{
    a.cells[(y, x)] = id;
}

/// A `height` by `width` grid of tile ids; every tile's flags are empty.
pub struct TileGrid {
    height: usize,
    width: usize,
    cells: TileArray,
}

impl TileGrid {
    /// The ids, row by row.
    pub closed spec fn view(&self) -> Seq<Seq<u8>> {
        array_ids(self.cells)
    }

    pub closed spec fn spec_height(&self) -> nat {
        self.height as nat
    }

    pub closed spec fn spec_width(&self) -> nat {
        self.width as nat
    }

    /// The stored dimensions describe the cells.
    pub closed spec fn wf(&self) -> bool {
        &&& self.view().len() == self.height
        &&& forall|y: int| 0 <= y < self.height ==> #[trigger] self.view()[y].len() == self.width
        &&& self.height <= isize::MAX && self.width <= isize::MAX
        &&& self.height * self.width <= isize::MAX
    }

    /// The id at row `y`, column `x`.
    pub open spec fn id_at(&self, y: int, x: int) -> u8 {
        self.view()[y][x]
    }

    pub open spec fn in_bounds(&self, y: int, x: int) -> bool {
        0 <= y < self.spec_height() && 0 <= x < self.spec_width()
    }

    /// A `height` by `width` grid of empty tiles.
    pub fn new(height: usize, width: usize) -> (r: TileGrid)
        requires
            height <= isize::MAX,
            width <= isize::MAX,
            height * width <= isize::MAX,
        ensures
            r.wf(),
            r.spec_height() == height,
            r.spec_width() == width,
            forall|y: int, x: int| r.in_bounds(y, x) ==> #[trigger] r.id_at(y, x) == 0,
    {
        TileGrid { height, width, cells: array_zeros(height, width) }
    }

    pub fn height(&self) -> (r: usize)
        ensures
            r == self.spec_height(),
    {
        self.height
    }

    pub fn width(&self) -> (r: usize)
        ensures
            r == self.spec_width(),
    {
        self.width
    }

    /// Two well-formed grids of the same dimensions that agree on every cell
    /// hold the same ids.
    pub proof fn lemma_same_cells(a: TileGrid, b: TileGrid)
        requires
            a.wf(),
            b.wf(),
            a.spec_height() == b.spec_height(),
            a.spec_width() == b.spec_width(),
            forall|y: int, x: int| a.in_bounds(y, x) ==> #[trigger] a.id_at(y, x) == b.id_at(y, x),
        ensures
            a.view() == b.view(),
    {
        assert forall|y: int| 0 <= y < a.view().len() implies #[trigger] a.view()[y] == b.view()[y] by {
            assert(a.view()[y] =~= b.view()[y]) by {
                assert forall|x: int| 0 <= x < a.view()[y].len() implies a.view()[y][x] == b.view()[y][x] by {
                    assert(a.id_at(y, x) == b.id_at(y, x));
                }
            }
        }
        assert(a.view() =~= b.view());
    }

    /// The id at row `y`, column `x`.
    pub fn get(&self, y: usize, x: usize) -> (r: u8)
        requires
            self.wf(),
            self.in_bounds(y as int, x as int),
        ensures
            r == self.id_at(y as int, x as int),
    {
        array_get(&self.cells, y, x)
    }

    /// Writes `id` at row `y`, column `x`; every other cell keeps its id.
    pub fn set(&mut self, y: usize, x: usize, id: u8)
        requires
            old(self).wf(),
            old(self).in_bounds(y as int, x as int),
        ensures
            final(self).wf(),
            final(self).spec_height() == old(self).spec_height(),
            final(self).spec_width() == old(self).spec_width(),
            final(self).id_at(y as int, x as int) == id,
            forall|yy: int, xx: int|
                final(self).in_bounds(yy, xx) && !(yy == y && xx == x)
                    ==> #[trigger] final(self).id_at(yy, xx) == old(self).id_at(yy, xx),
    {
        array_set(&mut self.cells, y, x, id);
    }
}

/// The cell `(y, x)` is one of the eight cells around `(cy, cx)`.
pub open spec fn adjacent(y: int, x: int, cy: int, cx: int) -> bool {
    &&& !(y == cy && x == cx)
    &&& cy - 1 <= y <= cy + 1
    &&& cx - 1 <= x <= cx + 1
}

/// Gives the cell at column `x`, row `y` the id `newid` if its id is `oldid`.
pub fn replace_gametile(tiles: &mut TileGrid, x: usize, y: usize, oldid: u8, newid: u8)
    requires
        old(tiles).wf(),
        old(tiles).in_bounds(y as int, x as int),
    ensures
        final(tiles).wf(),
        final(tiles).spec_height() == old(tiles).spec_height(),
        final(tiles).spec_width() == old(tiles).spec_width(),
        final(tiles).id_at(y as int, x as int) == if old(tiles).id_at(y as int, x as int) == oldid {
            newid
        } else {
            old(tiles).id_at(y as int, x as int)
        },
        forall|yy: int, xx: int|
            final(tiles).in_bounds(yy, xx) && !(yy == y && xx == x)
                ==> #[trigger] final(tiles).id_at(yy, xx) == old(tiles).id_at(yy, xx),
{
    if tiles.get(y, x) == oldid {
        tiles.set(y, x, newid);
    }
}

/// Gives each of the up to eight cells around column `x`, row `y` that lie in
/// the grid the id `newid` if its id is `oldid`; the rest of the grid keeps its
/// ids. The center itself may lie outside the grid.
pub fn replace_around_gametile(tiles: &mut TileGrid, x: usize, y: usize, oldid: u8, newid: u8)
    requires
        old(tiles).wf(),
    ensures
        final(tiles).wf(),
        final(tiles).spec_height() == old(tiles).spec_height(),
        final(tiles).spec_width() == old(tiles).spec_width(),
        forall|yy: int, xx: int|
            #![trigger final(tiles).id_at(yy, xx)]
            final(tiles).in_bounds(yy, xx) ==> final(tiles).id_at(yy, xx) == if adjacent(
                yy,
                xx,
                y as int,
                x as int,
            ) && old(tiles).id_at(yy, xx) == oldid {
                newid
            } else {
                old(tiles).id_at(yy, xx)
            },
{
    let height = tiles.height();
    let width = tiles.width();
    let y_lo: usize = if y == 0 { 0 } else { y - 1 };
    let y_end: usize = if y < height && y + 2 < height { y + 2 } else { height };
    let x_lo: usize = if x == 0 { 0 } else { x - 1 };
    let x_end: usize = if x < width && x + 2 < width { x + 2 } else { width };
    let ghost before = *tiles;
    let mut yy: usize = y_lo;
    while yy < y_end
        invariant
            tiles.wf(),
            before.wf(),
            tiles.spec_height() == before.spec_height() == height,
            tiles.spec_width() == before.spec_width() == width,
            y_lo == (if y == 0 { 0 } else { y - 1 }),
            y_end == (if y < height && y + 2 < height { y + 2 } else { height as int }),
            x_lo == (if x == 0 { 0 } else { x - 1 }),
            x_end == (if x < width && x + 2 < width { x + 2 } else { width as int }),
            y_lo <= yy || yy >= y_end,
            forall|a: int, b: int|
                #![trigger tiles.id_at(a, b)]
                tiles.in_bounds(a, b) ==> tiles.id_at(a, b) == if adjacent(a, b, y as int, x as int)
                    && a < yy && before.id_at(a, b) == oldid {
                    newid
                } else {
                    before.id_at(a, b)
                },
        decreases y_end - yy,
    {
        let mut xx: usize = x_lo;
        while xx < x_end
            invariant
                tiles.wf(),
                before.wf(),
                tiles.spec_height() == before.spec_height() == height,
                tiles.spec_width() == before.spec_width() == width,
                y_lo == (if y == 0 { 0 } else { y - 1 }),
                y_end == (if y < height && y + 2 < height { y + 2 } else { height as int }),
                x_lo == (if x == 0 { 0 } else { x - 1 }),
                x_end == (if x < width && x + 2 < width { x + 2 } else { width as int }),
                y_lo <= yy < y_end,
                x_lo <= xx || xx >= x_end,
                forall|a: int, b: int|
                    #![trigger tiles.id_at(a, b)]
                    tiles.in_bounds(a, b) ==> tiles.id_at(a, b) == if adjacent(
                        a,
                        b,
                        y as int,
                        x as int,
                    ) && (a < yy || (a == yy && b < xx)) && before.id_at(a, b) == oldid {
                        newid
                    } else {
                        before.id_at(a, b)
                    },
            decreases x_end - xx,
        {
            if !(yy == y && xx == x) {
                replace_gametile(tiles, xx, yy, oldid, newid);
            }
            xx = xx + 1;
        }
        yy = yy + 1;
    }
}

} // verus!
