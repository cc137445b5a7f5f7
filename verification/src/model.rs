use vstd::prelude::*;
use crate::cell::Cell;
use crate::point::{Point, listed, near};

verus! {

/// The mathematical model of a grid: `height` rows of `width` cells each.
#[verifier::ext_equal]
pub ghost struct GridView {
    pub width: nat,
    pub height: nat,
    pub rows: Seq<Seq<Cell>>,
}

impl GridView {
    /// Every row is present and has the full width.
    pub open spec fn wf(self) -> bool {
        &&& self.rows.len() == self.height
        &&& forall|y: int| 0 <= y < self.height ==> (#[trigger] self.rows[y]).len() == self.width
    }

    /// Whether `(x, y)` addresses a cell of the grid.
    pub open spec fn in_bounds(self, x: int, y: int) -> bool {
        0 <= x < self.width && 0 <= y < self.height
    }

    /// Whether `(x, y)` is a cell that has all eight neighbours inside the
    /// grid.
    pub open spec fn interior(self, x: int, y: int) -> bool {
        1 <= x < self.width - 1 && 1 <= y < self.height - 1
    }

    /// Whether `(x, y)` is a cell of the outer ring.
    pub open spec fn on_boundary(self, x: int, y: int) -> bool {
        self.in_bounds(x, y) && !self.interior(x, y)
    }

    /// The state of the cell at `(x, y)`. Outside the grid there is only
    /// empty ground.
    pub open spec fn cell(self, x: int, y: int) -> Cell {
        if self.in_bounds(x, y) {
            self.rows[y][x]
        } else {
            Cell::Empty
        }
    }

    /// The grid of the given size whose cell at `(x, y)` is `f(x, y)`.
    pub open spec fn build(width: nat, height: nat, f: spec_fn(int, int) -> Cell) -> GridView {
        GridView {
            width,
            height,
            rows: Seq::new(height, |y: int| Seq::new(width, |x: int| f(x, y))),
        }
    }

    /// The grid of the given size that holds only empty ground.
    pub open spec fn empty(width: nat, height: nat) -> GridView {
        GridView::build(width, height, |x: int, y: int| Cell::Empty)
    }

    /// Whether every cell of the outer ring is empty.
    pub open spec fn boundary_clear(self) -> bool {
        forall|x: int, y: int| self.on_boundary(x, y) ==> self.cell(x, y) == Cell::Empty
    }

    /// The grid with the cell at `(x, y)` replaced by `c`.
    pub open spec fn with_cell(self, x: int, y: int, c: Cell) -> GridView {
        GridView::build(
            self.width,
            self.height,
            |i: int, j: int| if i == x && j == y { c } else { self.cell(i, j) },
        )
    }

    /// The grid with its outer ring forced to empty ground.
    pub open spec fn boundary_enforced(self) -> GridView {
        GridView::build(
            self.width,
            self.height,
            |x: int, y: int| if self.interior(x, y) { self.cell(x, y) } else { Cell::Empty },
        )
    }

    /// The grid with a tree in every interior cell.
    pub open spec fn forested(self) -> GridView {
        GridView::build(
            self.width,
            self.height,
            |x: int, y: int| if self.interior(x, y) { Cell::Tree } else { self.cell(x, y) },
        )
    }

    /// The grid with a tree in every listed interior cell, whatever it held.
    pub open spec fn planted(self, sites: Seq<Point>) -> GridView {
        GridView::build(
            self.width,
            self.height,
            |x: int, y: int| if self.interior(x, y) && listed(sites, x, y) { Cell::Tree } else { self.cell(x, y) },
        )
    }

    /// The grid after a round of spawn attempts: a tree grows in every listed
    /// cell that is empty; attempts on occupied cells are dropped.
    pub open spec fn spawned(self, picks: Seq<Point>) -> GridView {
        GridView::build(
            self.width,
            self.height,
            |x: int, y: int| if self.cell(x, y) == Cell::Empty && listed(picks, x, y) { Cell::Tree } else { self.cell(x, y) },
        )
    }

    /// The grid with the cell at `(x, y)` set on fire if it holds a tree.
    pub open spec fn ignited(self, x: int, y: int) -> GridView {
        if self.cell(x, y) == Cell::Tree {
            self.with_cell(x, y, Cell::Fire)
        } else {
            self
        }
    }

    /// The grid after fire has spread from the listed cells: every tree that
    /// one of them touches burns.
    pub open spec fn spread_from(self, sources: Seq<Point>) -> GridView {
        GridView::build(
            self.width,
            self.height,
            |x: int, y: int| if self.cell(x, y) == Cell::Tree && near(sources, x, y) { Cell::Fire } else { self.cell(x, y) },
        )
    }

    /// Whether one of the eight neighbours of `(x, y)` is on fire.
    pub open spec fn burning_neighbor(self, x: int, y: int) -> bool {
        ||| self.cell(x - 1, y - 1) == Cell::Fire
        ||| self.cell(x, y - 1) == Cell::Fire
        ||| self.cell(x + 1, y - 1) == Cell::Fire
        ||| self.cell(x + 1, y) == Cell::Fire
        ||| self.cell(x + 1, y + 1) == Cell::Fire
        ||| self.cell(x, y + 1) == Cell::Fire
        ||| self.cell(x - 1, y + 1) == Cell::Fire
        ||| self.cell(x - 1, y) == Cell::Fire
    }

    /// The grid after one round of fire spread: every tree with a burning
    /// neighbour burns. All cells are judged against the grid before the
    /// round, so fire advances by one ring only.
    pub open spec fn spread(self) -> GridView {
        GridView::build(
            self.width,
            self.height,
            |x: int, y: int| if self.cell(x, y) == Cell::Tree && self.burning_neighbor(x, y) { Cell::Fire } else { self.cell(x, y) },
        )
    }

    /// The grid with every listed cell turned to empty ground.
    pub open spec fn cleared(self, burnt: Seq<Point>) -> GridView {
        GridView::build(
            self.width,
            self.height,
            |x: int, y: int| if listed(burnt, x, y) { Cell::Empty } else { self.cell(x, y) },
        )
    }

    /// The grid with every cell that burns in `before` turned to empty
    /// ground.
    pub open spec fn extinguished(self, before: GridView) -> GridView {
        GridView::build(
            self.width,
            self.height,
            |x: int, y: int| if before.cell(x, y) == Cell::Fire { Cell::Empty } else { self.cell(x, y) },
        )
    }

    /// Whether `points` lists exactly the burning cells of the grid, each
    /// once.
    pub open spec fn burning_at(self, points: Seq<Point>) -> bool {
        &&& forall|i: int| 0 <= i < points.len() ==> self.in_bounds((#[trigger] points[i]).x as int, points[i].y as int)
                && self.cell(points[i].x as int, points[i].y as int) == Cell::Fire
        &&& forall|x: int, y: int| self.in_bounds(x, y) && self.cell(x, y) == Cell::Fire ==> listed(points, x, y)
        &&& crate::point::distinct(points)
    }

    /// Whether `points` lists exactly the cells that hold a tree in this grid
    /// and burn in `after`, each once.
    pub open spec fn caught_fire(self, after: GridView, points: Seq<Point>) -> bool {
        &&& forall|i: int|
            0 <= i < points.len() ==> {
                &&& self.in_bounds((#[trigger] points[i]).x as int, points[i].y as int)
                &&& self.cell(points[i].x as int, points[i].y as int) == Cell::Tree
                &&& after.cell(points[i].x as int, points[i].y as int) == Cell::Fire
            }
        &&& forall|x: int, y: int|
            self.in_bounds(x, y) && self.cell(x, y) == Cell::Tree && after.cell(x, y) == Cell::Fire
                ==> listed(points, x, y)
        &&& crate::point::distinct(points)
    }

    /// Where the three bytes of the pixel `(x, y)` start in a row-major image
    /// of three bytes per pixel.
    pub open spec fn pixel_offset(self, x: int, y: int) -> int {
        (y * self.width + x) * 3
    }

    /// Whether `bytes` is the image of the grid: row by row, three bytes per
    /// cell, which hold the red, green and blue of the cell's colour.
    pub open spec fn shown_by(self, bytes: Seq<u8>) -> bool {
        &&& bytes.len() == self.width * self.height * 3
        &&& forall|x: int, y: int|
            self.in_bounds(x, y) ==> {
                &&& bytes[#[trigger] self.pixel_offset(x, y)] == self.cell(x, y).rgb_spec().0
                &&& bytes[self.pixel_offset(x, y) + 1] == self.cell(x, y).rgb_spec().1
                &&& bytes[self.pixel_offset(x, y) + 2] == self.cell(x, y).rgb_spec().2
            }
    }

    /// Enforcing the boundary of a grid whose outer ring is empty changes
    /// nothing.
    pub proof fn lemma_boundary_enforced_when_clear(self)
        requires
            self.wf(),
            self.boundary_clear(),
        ensures
            self.boundary_enforced() == self,
    {
        self.boundary_enforced().lemma_equal_by_cells(self);
    }

    /// Whether fire burns at `(a, b)`, and `(a, b)` is one of the eight
    /// neighbours of `(x, y)`.
    pub open spec fn burns_beside(self, x: int, y: int, a: int, b: int) -> bool {
        &&& x - 1 <= a <= x + 1
        &&& y - 1 <= b <= y + 1
        &&& (a != x || b != y)
        &&& self.cell(a, b) == Cell::Fire
    }

    /// A cell has a burning neighbour exactly if fire burns in some cell
    /// beside it.
    pub proof fn lemma_burning_neighbor(self, x: int, y: int)
        ensures
            self.burning_neighbor(x, y) <==> exists|a: int, b: int| #[trigger] self.burns_beside(x, y, a, b),
    {
        if self.burning_neighbor(x, y) {
            assert(self.burns_beside(x, y, x - 1, y - 1) || self.burns_beside(x, y, x, y - 1)
                || self.burns_beside(x, y, x + 1, y - 1) || self.burns_beside(x, y, x + 1, y)
                || self.burns_beside(x, y, x + 1, y + 1) || self.burns_beside(x, y, x, y + 1)
                || self.burns_beside(x, y, x - 1, y + 1) || self.burns_beside(x, y, x - 1, y));
        }
    }

    /// Spreading fire from a list that holds every burning cell, and burning
    /// cells only, is one round of fire spread.
    pub proof fn lemma_spread_from_all_fires(self, sources: Seq<Point>)
        requires
            self.wf(),
            forall|i: int| 0 <= i < sources.len() ==> self.cell((#[trigger] sources[i]).x as int, sources[i].y as int) == Cell::Fire,
            forall|x: int, y: int| self.cell(x, y) == Cell::Fire ==> listed(sources, x, y),
        ensures
            self.spread_from(sources) == self.spread(),
    {
        assert forall|x: int, y: int| self.in_bounds(x, y) implies near(sources, x, y)
            == self.burning_neighbor(x, y) by {
            self.lemma_burning_neighbor(x, y);
            if near(sources, x, y) {
                let i = choose|i: int| 0 <= i < sources.len() && (#[trigger] sources[i]).touches(x, y);
                assert(self.burns_beside(x, y, sources[i].x as int, sources[i].y as int));
            }
            if self.burning_neighbor(x, y) {
                let (a, b) = choose|a: int, b: int| #[trigger] self.burns_beside(x, y, a, b);
                let i = choose|i: int| 0 <= i < sources.len() && (#[trigger] sources[i]).at(a, b);
                assert(sources[i].touches(x, y));
            }
        }
        self.spread_from(sources).lemma_equal_by_cells(self.spread());
    }

    /// Clearing the cells of a list that holds exactly the cells that burn in
    /// `before` extinguishes the fires of `before`.
    pub proof fn lemma_cleared_is_extinguished(self, before: GridView, burnt: Seq<Point>)
        requires
            self.wf(),
            self.width == before.width,
            self.height == before.height,
            before.burning_at(burnt),
        ensures
            self.cleared(burnt) == self.extinguished(before),
    {
        assert forall|x: int, y: int| self.in_bounds(x, y) implies listed(burnt, x, y) == (before.cell(
            x,
            y,
        ) == Cell::Fire) by {
            if listed(burnt, x, y) {
                let i = choose|i: int| 0 <= i < burnt.len() && (#[trigger] burnt[i]).at(x, y);
                assert(before.cell(burnt[i].x as int, burnt[i].y as int) == Cell::Fire);
            }
        }
        self.cleared(burnt).lemma_equal_by_cells(self.extinguished(before));
    }

    /// Two well-formed grids of one size that agree on every cell are equal.
    pub proof fn lemma_equal_by_cells(self, other: GridView)
        requires
            self.wf(),
            other.wf(),
            self.width == other.width,
            self.height == other.height,
            forall|x: int, y: int| self.in_bounds(x, y) ==> self.cell(x, y) == other.cell(x, y),
        ensures
            self == other,
    {
        assert forall|y: int| 0 <= y < self.height implies #[trigger] self.rows[y] =~= other.rows[y] by {
            assert forall|x: int| 0 <= x < self.width implies self.rows[y][x] == other.rows[y][x] by {
                assert(self.cell(x, y) == other.cell(x, y));
            }
        }
        assert(self.rows =~= other.rows);
    }
}

} // verus!
