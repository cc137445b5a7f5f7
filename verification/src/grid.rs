use vstd::prelude::*;
use crate::cell::Cell;
use crate::model::GridView;
use crate::random::random_ratio;
use rand::rngs::StdRng;
use crate::point::{Point, listed, near, distinct, in_reading_order, lemma_listed_step, lemma_near_step};

verus! {

/// A fixed-size grid of cells, stored row by row.
pub struct Grid {
    width: usize,
    height: usize,
    cells: Vec<Cell>,
}

/// The place of the cell `(x, y)` in row-major storage lies inside a store of
/// `width * height` cells.
proof fn lemma_offset_in_store(width: int, height: int, x: int, y: int)
    by (nonlinear_arith)
    requires
        0 <= x < width,
        0 <= y < height,
    ensures
        0 <= y * width,
        0 <= y * width + x < width * height,
{
}

/// Two cells of one grid that share a place in row-major storage are the same
/// cell.
proof fn lemma_offset_unique(width: int, x1: int, y1: int, x2: int, y2: int)
    by (nonlinear_arith)
    requires
        0 <= x1 < width,
        0 <= x2 < width,
        y1 * width + x1 == y2 * width + x2,
    ensures
        x1 == x2,
        y1 == y2,
{
}

impl View for Grid {
    type V = GridView;

    closed spec fn view(&self) -> GridView {
        GridView::build(
            self.width as nat,
            self.height as nat,
            |x: int, y: int| self.cells@[y * self.width + x],
        )
    }
}

impl Grid {
    /// The store holds one cell for each coordinate, and an image of three
    /// bytes per cell can be addressed.
    pub closed spec fn wf(&self) -> bool {
        &&& self.cells.len() == self.width * self.height
        &&& self.width * self.height * 3 <= usize::MAX
    }

    /// The model of a grid is always a full rectangle of its size.
    pub proof fn lemma_view_wf(&self)
        ensures
            self@.wf(),
    {
    }

    /// Makes a grid of the given size that holds only empty ground.
    pub fn new(width: usize, height: usize) -> (grid: Grid)
        requires
            width * height * 3 <= usize::MAX,
        ensures
            grid.wf(),
            grid@ == GridView::empty(width as nat, height as nat),
    {
        let cells = vec![Cell::Empty; width * height];
        let grid = Grid { width, height, cells };
        proof {
            assert forall|x: int, y: int| grid@.in_bounds(x, y) implies grid@.cell(x, y)
                == Cell::Empty by {
                lemma_offset_in_store(width as int, height as int, x, y);
            }
            grid@.lemma_equal_by_cells(GridView::empty(width as nat, height as nat));
        }
        grid
    }

    /// The number of columns.
    pub fn width(&self) -> (w: usize)
        ensures
            w == self@.width,
    {
        self.width
    }

    /// The number of rows.
    pub fn height(&self) -> (h: usize)
        ensures
            h == self@.height,
    {
        self.height
    }

    /// Returns the state of the cell at `(x, y)`, which must lie inside the
    /// grid.
    pub fn cell_at(&self, x: usize, y: usize) -> (c: Cell)
        requires
            self.wf(),
            self@.in_bounds(x as int, y as int),
        ensures
            c == self@.cell(x as int, y as int),
    {
        proof {
            lemma_offset_in_store(self.width as int, self.height as int, x as int, y as int);
        }
        self.cells[y * self.width + x]
    }

    /// Replaces the state of the cell at `(x, y)`, which must lie inside the
    /// grid.
    pub fn set_cell(&mut self, x: usize, y: usize, c: Cell)
        requires
            old(self).wf(),
            old(self)@.in_bounds(x as int, y as int),
        ensures
            final(self).wf(),
            final(self)@ == old(self)@.with_cell(x as int, y as int, c),
    {
        proof {
            lemma_offset_in_store(self.width as int, self.height as int, x as int, y as int);
        }
        self.cells.set(y * self.width + x, c);
        proof {
            let goal = old(self)@.with_cell(x as int, y as int, c);
            assert forall|i: int, j: int| self@.in_bounds(i, j) implies self@.cell(i, j)
                == goal.cell(i, j) by {
                lemma_offset_in_store(self.width as int, self.height as int, i, j);
                if j * self.width + i == y * self.width + x {
                    lemma_offset_unique(self.width as int, i, j, x as int, y as int);
                }
            }
            self@.lemma_equal_by_cells(goal);
        }
    }

    /// Tells whether `(x, y)` is a cell off the outer ring, one whose eight
    /// neighbours all lie inside the grid.
    pub fn is_interior(&self, x: usize, y: usize) -> (inside: bool)
        ensures
            inside == self@.interior(x as int, y as int),
    {
        1 <= x && 1 <= y && x < self.width && y < self.height && x + 1 < self.width && y + 1
            < self.height
    }

    /// Forces the outer ring of the grid to empty ground.
    pub fn enforce_boundary(&mut self)
        requires
            old(self).wf(),
        ensures
            final(self).wf(),
            final(self)@ == old(self)@.boundary_enforced(),
            final(self)@.boundary_clear(),
    {
        let ghost before = self@;
        let w = self.width;
        let h = self.height;
        if w > 0 && h > 0 {
            let mut x: usize = 0;
            while x < w
                invariant
                    self.wf(),
                    self@.width == w == before.width,
                    self@.height == h == before.height,
                    h > 0,
                    x <= w,
                    forall|i: int, j: int|
                        before.in_bounds(i, j) ==> self@.cell(i, j) == if (j == 0 || j == h - 1) && i < x {
                            Cell::Empty
                        } else {
                            before.cell(i, j)
                        },
                decreases w - x,
            {
                self.set_cell(x, 0, Cell::Empty);
                self.set_cell(x, h - 1, Cell::Empty);
                x += 1;
            }
            let mut y: usize = 0;
            while y < h
                invariant
                    self.wf(),
                    self@.width == w == before.width,
                    self@.height == h == before.height,
                    w > 0,
                    y <= h,
                    forall|i: int, j: int|
                        before.in_bounds(i, j) ==> self@.cell(i, j) == if j == 0 || j == h - 1 || ((i == 0
                            || i == w - 1) && j < y) {
                            Cell::Empty
                        } else {
                            before.cell(i, j)
                        },
                decreases h - y,
            {
                self.set_cell(0, y, Cell::Empty);
                self.set_cell(w - 1, y, Cell::Empty);
                y += 1;
            }
        }
        proof {
            self@.lemma_equal_by_cells(before.boundary_enforced());
        }
    }

    /// Sets every listed interior cell to a tree, whatever it held. Listed
    /// coordinates on the outer ring or outside the grid are passed over.
    pub fn plant(&mut self, sites: &Vec<Point>)
        requires
            old(self).wf(),
        ensures
            final(self).wf(),
            final(self)@ == old(self)@.planted(sites@),
    {
        let ghost before = self@;
        proof {
            before.lemma_equal_by_cells(before.planted(sites@.take(0)));
        }
        let mut i: usize = 0;
        while i < sites.len()
            invariant
                self.wf(),
                i <= sites.len(),
                self@ == before.planted(sites@.take(i as int)),
            decreases sites.len() - i,
        {
            let p = sites[i];
            if self.is_interior(p.x, p.y) {
                self.set_cell(p.x, p.y, Cell::Tree);
            }
            proof {
                let goal = before.planted(sites@.take(i + 1));
                assert forall|x: int, y: int| self@.in_bounds(x, y) implies self@.cell(x, y)
                    == goal.cell(x, y) by {
                    lemma_listed_step(sites@, i as int, x, y);
                }
                self@.lemma_equal_by_cells(goal);
            }
            i += 1;
        }
        proof {
            assert(sites@.take(sites.len() as int) =~= sites@);
        }
    }

    /// Seeds the grid with trees: each interior cell becomes a tree with a
    /// chance of `numerator` in `denominator`, independently of the others,
    /// and is left as it is otherwise.
    pub fn random_seed(&mut self, numerator: u32, denominator: u32, rng: &mut StdRng)
        requires
            old(self).wf(),
            0 < denominator,
            numerator <= denominator,
        ensures
            final(self).wf(),
            exists|sites: Seq<Point>| final(self)@ == #[trigger] old(self)@.planted(sites),
            final(self)@.width == old(self)@.width,
            final(self)@.height == old(self)@.height,
            numerator == 0 ==> final(self)@ == old(self)@,
            numerator == denominator ==> final(self)@ == old(self)@.forested(),
    {
        let ghost before = self@;
        let mut sites: Vec<Point> = Vec::new();
        if self.width >= 3 && self.height >= 3 {
            let mut y: usize = 1;
            while y < self.height - 1
                invariant
                    self.width >= 3,
                    self.height >= 3,
                    1 <= y <= self.height - 1,
                    0 < denominator,
                    numerator <= denominator,
                    numerator == 0 ==> sites@.len() == 0,
                    numerator == denominator ==> forall|i: int, j: int|
                        self@.interior(i, j) && earlier(i, j, 1, y as int) ==> listed(sites@, i, j),
                decreases self.height - y,
            {
                let mut x: usize = 1;
                while x < self.width - 1
                    invariant
                        self.width >= 3,
                        1 <= y < self.height - 1,
                        1 <= x <= self.width - 1,
                        0 < denominator,
                        numerator <= denominator,
                        numerator == 0 ==> sites@.len() == 0,
                        numerator == denominator ==> forall|i: int, j: int|
                            self@.interior(i, j) && earlier(i, j, x as int, y as int) ==> listed(
                                sites@,
                                i,
                                j,
                            ),
                    decreases self.width - x,
                {
                    let ghost seen = sites@;
                    if random_ratio(rng, numerator, denominator) {
                        sites.push(Point { x, y });
                    }
                    proof {
                        if numerator == denominator {
                            assert(sites@[seen.len() as int].at(x as int, y as int));
                            assert forall|i: int, j: int|
                                self@.interior(i, j) && earlier(i, j, x + 1, y as int) implies listed(
                                sites@,
                                i,
                                j,
                            ) by {
                                if earlier(i, j, x as int, y as int) {
                                    let k = choose|k: int| 0 <= k < seen.len() && (#[trigger] seen[k]).at(i, j);
                                    assert(sites@[k].at(i, j));
                                }
                            }
                        }
                    }
                    x += 1;
                }
                y += 1;
            }
        }
        self.plant(&sites);
        proof {
            if numerator == 0 {
                self@.lemma_equal_by_cells(before);
            }
            if numerator == denominator {
                self@.lemma_equal_by_cells(before.forested());
            }
        }
    }

    /// Makes one spawn attempt at each listed cell: a tree grows where the
    /// ground is empty, and nothing happens where the cell is occupied.
    pub fn spawn_trees(&mut self, picks: &Vec<Point>)
        requires
            old(self).wf(),
            forall|i: int| 0 <= i < picks@.len() ==> old(self)@.interior((#[trigger] picks@[i]).x as int, picks@[i].y as int),
        ensures
            final(self).wf(),
            final(self)@ == old(self)@.spawned(picks@),
    {
        let ghost before = self@;
        proof {
            before.lemma_equal_by_cells(before.spawned(picks@.take(0)));
        }
        let mut i: usize = 0;
        while i < picks.len()
            invariant
                self.wf(),
                i <= picks.len(),
                forall|k: int| 0 <= k < picks@.len() ==> before.interior((#[trigger] picks@[k]).x as int, picks@[k].y as int),
                self@ == before.spawned(picks@.take(i as int)),
            decreases picks.len() - i,
        {
            let p = picks[i];
            if self.cell_at(p.x, p.y) == Cell::Empty {
                self.set_cell(p.x, p.y, Cell::Tree);
            }
            proof {
                let goal = before.spawned(picks@.take(i + 1));
                assert forall|x: int, y: int| self@.in_bounds(x, y) implies self@.cell(x, y)
                    == goal.cell(x, y) by {
                    lemma_listed_step(picks@, i as int, x, y);
                }
                self@.lemma_equal_by_cells(goal);
            }
            i += 1;
        }
        proof {
            assert(picks@.take(picks.len() as int) =~= picks@);
        }
    }

    /// Sets the cell at `(x, y)` on fire if it holds a tree, and tells
    /// whether it did.
    pub fn ignite(&mut self, x: usize, y: usize) -> (lit: bool)
        requires
            old(self).wf(),
            old(self)@.in_bounds(x as int, y as int),
        ensures
            final(self).wf(),
            lit == (old(self)@.cell(x as int, y as int) == Cell::Tree),
            final(self)@ == old(self)@.ignited(x as int, y as int),
    {
        if self.cell_at(x, y) == Cell::Tree {
            self.set_cell(x, y, Cell::Fire);
            true
        } else {
            false
        }
    }

    /// Turns every listed cell to empty ground.
    pub fn clear_fire(&mut self, burnt: &Vec<Point>)
        requires
            old(self).wf(),
            forall|i: int| 0 <= i < burnt@.len() ==> old(self)@.in_bounds((#[trigger] burnt@[i]).x as int, burnt@[i].y as int),
        ensures
            final(self).wf(),
            final(self)@ == old(self)@.cleared(burnt@),
    {
        let ghost before = self@;
        proof {
            before.lemma_equal_by_cells(before.cleared(burnt@.take(0)));
        }
        let mut i: usize = 0;
        while i < burnt.len()
            invariant
                self.wf(),
                i <= burnt.len(),
                forall|k: int| 0 <= k < burnt@.len() ==> before.in_bounds((#[trigger] burnt@[k]).x as int, burnt@[k].y as int),
                self@ == before.cleared(burnt@.take(i as int)),
            decreases burnt.len() - i,
        {
            let p = burnt[i];
            self.set_cell(p.x, p.y, Cell::Empty);
            proof {
                let goal = before.cleared(burnt@.take(i + 1));
                assert forall|x: int, y: int| self@.in_bounds(x, y) implies self@.cell(x, y)
                    == goal.cell(x, y) by {
                    lemma_listed_step(burnt@, i as int, x, y);
                }
                self@.lemma_equal_by_cells(goal);
            }
            i += 1;
        }
        proof {
            assert(burnt@.take(burnt.len() as int) =~= burnt@);
        }
    }

    /// Spreads fire from the listed cells: every tree in the Moore
    /// neighbourhood of one of them is set on fire. Returns the coordinates
    /// of the trees that caught fire. The listed cells must lie off the outer
    /// ring, so that all their neighbours are inside the grid.
    pub fn burn_trees(&mut self, sources: &Vec<Point>) -> (ignited: Vec<Point>)
        requires
            old(self).wf(),
            forall|i: int| 0 <= i < sources@.len() ==> old(self)@.interior((#[trigger] sources@[i]).x as int, sources@[i].y as int),
        ensures
            final(self).wf(),
            final(self)@ == old(self)@.spread_from(sources@),
            old(self)@.caught_fire(final(self)@, ignited@),
    {
        let ghost before = self@;
        let mut ignited: Vec<Point> = Vec::new();
        proof {
            before.lemma_equal_by_cells(before.spread_from(sources@.take(0)));
        }
        let mut i: usize = 0;
        while i < sources.len()
            invariant
                self.wf(),
                i <= sources.len(),
                forall|k: int| 0 <= k < sources@.len() ==> before.interior((#[trigger] sources@[k]).x as int, sources@[k].y as int),
                self@ == before.spread_from(sources@.take(i as int)),
                before.caught_fire(self@, ignited@),
            decreases sources.len() - i,
        {
            let ghost mid = self@;
            let source = sources[i];
            let ring = source.neighbors();
            let mut k: usize = 0;
            while k < 8
                invariant
                    self.wf(),
                    k <= 8,
                    0 <= i < sources.len(),
                    source == sources@[i as int],
                    before.interior(source.x as int, source.y as int),
                    ring@ == source.neighbors_spec(),
                    mid == before.spread_from(sources@.take(i as int)),
                    self@.width == mid.width,
                    self@.height == mid.height,
                    forall|x: int, y: int|
                        mid.in_bounds(x, y) ==> self@.cell(x, y) == if mid.cell(x, y) == Cell::Tree
                            && listed(ring@.take(k as int), x, y) {
                            Cell::Fire
                        } else {
                            mid.cell(x, y)
                        },
                    before.caught_fire(self@, ignited@),
                decreases 8 - k,
            {
                let ghost seen = ignited@;
                let n = ring[k];
                if self.ignite(n.x, n.y) {
                    ignited.push(n);
                    proof {
                        assert(mid.cell(n.x as int, n.y as int) == Cell::Tree);
                        assert(ignited@[seen.len() as int].at(n.x as int, n.y as int));
                        assert forall|x: int, y: int|
                            before.in_bounds(x, y) && before.cell(x, y) == Cell::Tree && self@.cell(x, y)
                                == Cell::Fire implies listed(ignited@, x, y) by {
                            if !n.at(x, y) {
                                let j = choose|j: int| 0 <= j < seen.len() && (#[trigger] seen[j]).at(x, y);
                                assert(ignited@[j].at(x, y));
                            }
                        }
                    }
                }
                proof {
                    assert forall|x: int, y: int| mid.in_bounds(x, y) implies self@.cell(x, y) == if mid.cell(
                        x,
                        y,
                    ) == Cell::Tree && listed(ring@.take(k + 1), x, y) {
                        Cell::Fire
                    } else {
                        mid.cell(x, y)
                    } by {
                        lemma_listed_step(ring@, k as int, x, y);
                    }
                }
                k += 1;
            }
            proof {
                assert(ring@.take(8) =~= ring@);
                let goal = before.spread_from(sources@.take(i + 1));
                assert forall|x: int, y: int| self@.in_bounds(x, y) implies self@.cell(x, y)
                    == goal.cell(x, y) by {
                    lemma_near_step(sources@, i as int, x, y);
                    source.lemma_neighbors_touch(x, y);
                }
                self@.lemma_equal_by_cells(goal);
            }
            i += 1;
        }
        proof {
            assert(sources@.take(sources.len() as int) =~= sources@);
        }
        ignited
    }

    /// Renders the grid as an image of three bytes per cell, row by row:
    /// the red, green and blue of each cell's colour.
    pub fn to_rgb(&self) -> (bytes: Vec<u8>)
        requires
            self.wf(),
        ensures
            self@.shown_by(bytes@),
    {
        let mut bytes: Vec<u8> = Vec::new();
        let mut i: usize = 0;
        while i < self.cells.len()
            invariant
                i <= self.cells.len(),
                bytes@.len() == i * 3,
                forall|k: int|
                    0 <= k < i ==> {
                        &&& bytes@[k * 3] == (#[trigger] self.cells@[k]).rgb_spec().0
                        &&& bytes@[k * 3 + 1] == self.cells@[k].rgb_spec().1
                        &&& bytes@[k * 3 + 2] == self.cells@[k].rgb_spec().2
                    },
            decreases self.cells.len() - i,
        {
            let (red, green, blue) = self.cells[i].rgb();
            bytes.push(red);
            bytes.push(green);
            bytes.push(blue);
            i += 1;
        }
        proof {
            assert forall|x: int, y: int| self@.in_bounds(x, y) implies {
                &&& bytes@[#[trigger] self@.pixel_offset(x, y)] == self@.cell(x, y).rgb_spec().0
                &&& bytes@[self@.pixel_offset(x, y) + 1] == self@.cell(x, y).rgb_spec().1
                &&& bytes@[self@.pixel_offset(x, y) + 2] == self@.cell(x, y).rgb_spec().2
            } by {
                lemma_offset_in_store(self.width as int, self.height as int, x, y);
                assert(self.cells@[y * self.width + x] == self@.cell(x, y));
            }
        }
        bytes
    }

    /// Scans the whole grid and returns the coordinates of the burning cells
    /// in reading order.
    pub fn burning(&self) -> (fires: Vec<Point>)
        requires
            self.wf(),
        ensures
            self@.burning_at(fires@),
            in_reading_order(fires@),
    {
        let mut fires: Vec<Point> = Vec::new();
        let mut y: usize = 0;
        while y < self.height
            invariant
                self.wf(),
                y <= self.height,
                scanned(self@, fires@, 0, y as int),
            decreases self.height - y,
        {
            let mut x: usize = 0;
            while x < self.width
                invariant
                    self.wf(),
                    y < self.height,
                    x <= self.width,
                    scanned(self@, fires@, x as int, y as int),
                decreases self.width - x,
            {
                let ghost seen = fires@;
                if self.cell_at(x, y) == Cell::Fire {
                    fires.push(Point { x, y });
                    proof {
                        assert(fires@[seen.len() as int].at(x as int, y as int));
                        assert forall|i: int, j: int|
                            self@.in_bounds(i, j) && earlier(i, j, x + 1, y as int) && self@.cell(i, j)
                                == Cell::Fire implies listed(fires@, i, j) by {
                            if !(i == x && j == y) {
                                let k = choose|k: int| 0 <= k < seen.len() && (#[trigger] seen[k]).at(i, j);
                                assert(fires@[k].at(i, j));
                            }
                        }
                    }
                }
                x += 1;
            }
            y += 1;
        }
        fires
    }
}

/// Whether `(i, j)` comes before `(x, y)` when the cells are read row by row.
spec fn earlier(i: int, j: int, x: int, y: int) -> bool {
    j < y || (j == y && i < x)
}

/// Whether `fires` lists exactly the burning cells of `grid` that come before
/// `(x, y)`, each once.
spec fn scanned(grid: GridView, fires: Seq<Point>, x: int, y: int) -> bool {
    &&& forall|k: int|
        0 <= k < fires.len() ==> {
            &&& grid.in_bounds((#[trigger] fires[k]).x as int, fires[k].y as int)
            &&& earlier(fires[k].x as int, fires[k].y as int, x, y)
            &&& grid.cell(fires[k].x as int, fires[k].y as int) == Cell::Fire
        }
    &&& forall|i: int, j: int|
        grid.in_bounds(i, j) && earlier(i, j, x, y) && grid.cell(i, j) == Cell::Fire ==> listed(fires, i, j)
    &&& distinct(fires)
    &&& in_reading_order(fires)
}

} // verus!
