use vstd::prelude::*;

verus! {

/// A grid coordinate: column `x`, row `y`.
#[derive(Clone, Copy, Debug, PartialEq, Eq, Structural)]
pub struct Point {
    pub x: usize,
    pub y: usize,
}

impl Point {
    /// Makes the coordinate `(x, y)`.
    pub fn new(x: usize, y: usize) -> (p: Point)
        ensures
            p.x == x,
            p.y == y,
    {
        Point { x, y }
    }

    /// Whether this point lies at column `x`, row `y`.
    pub open spec fn at(self, x: int, y: int) -> bool {
        self.x == x && self.y == y
    }

    /// Whether `(x, y)` is one of the eight cells of the Moore neighbourhood
    /// of this point: at most one column and one row away, and not the point
    /// itself.
    pub open spec fn touches(self, x: int, y: int) -> bool {
        &&& self.x - 1 <= x <= self.x + 1
        &&& self.y - 1 <= y <= self.y + 1
        &&& !self.at(x, y)
    }

    /// The Moore neighbourhood in clockwise order, starting at the top left.
    pub open spec fn neighbors_spec(self) -> Seq<Point> {
        seq![
            Point { x: (self.x - 1) as usize, y: (self.y - 1) as usize },
            Point { x: self.x, y: (self.y - 1) as usize },
            Point { x: (self.x + 1) as usize, y: (self.y - 1) as usize },
            Point { x: (self.x + 1) as usize, y: self.y },
            Point { x: (self.x + 1) as usize, y: (self.y + 1) as usize },
            Point { x: self.x, y: (self.y + 1) as usize },
            Point { x: (self.x - 1) as usize, y: (self.y + 1) as usize },
            Point { x: (self.x - 1) as usize, y: self.y },
        ]
    }

    /// Returns the eight neighbours of this point, clockwise from the top
    /// left. The point must not lie on the rim of the coordinate space, so
    /// that every neighbour has a coordinate.
    pub fn neighbors(self) -> (ring: [Point; 8])
        requires
            1 <= self.x < usize::MAX,
            1 <= self.y < usize::MAX,
        ensures
            ring@ == self.neighbors_spec(),
    {
        let ring = [
            Point { x: self.x - 1, y: self.y - 1 },
            Point { x: self.x, y: self.y - 1 },
            Point { x: self.x + 1, y: self.y - 1 },
            Point { x: self.x + 1, y: self.y },
            Point { x: self.x + 1, y: self.y + 1 },
            Point { x: self.x, y: self.y + 1 },
            Point { x: self.x - 1, y: self.y + 1 },
            Point { x: self.x - 1, y: self.y },
        ];
        ring
    }

    /// The neighbourhood returned by `neighbors` holds exactly the cells that
    /// this point touches.
    pub proof fn lemma_neighbors_touch(self, x: int, y: int)
        requires
            1 <= self.x < usize::MAX,
            1 <= self.y < usize::MAX,
        ensures
            self.touches(x, y) <==> listed(self.neighbors_spec(), x, y),
    {
        let ring = self.neighbors_spec();
        if self.touches(x, y) {
            let k: int = if y == self.y - 1 {
                if x == self.x - 1 { 0 } else if x == self.x { 1 } else { 2 }
            } else if y == self.y {
                if x == self.x + 1 { 3 } else { 7 }
            } else {
                if x == self.x + 1 { 4 } else if x == self.x { 5 } else { 6 }
            };
            assert(ring[k].at(x, y));
        }
        if listed(ring, x, y) {
            let k = choose|k: int| 0 <= k < ring.len() && (#[trigger] ring[k]).at(x, y);
            assert(self.touches(ring[k].x as int, ring[k].y as int));
        }
    }
}

/// Whether the list `points` holds the coordinate `(x, y)`.
pub open spec fn listed(points: Seq<Point>, x: int, y: int) -> bool {
    exists|i: int| 0 <= i < points.len() && (#[trigger] points[i]).at(x, y)
}

/// Whether some point of the list `points` touches `(x, y)`.
pub open spec fn near(points: Seq<Point>, x: int, y: int) -> bool {
    exists|i: int| 0 <= i < points.len() && (#[trigger] points[i]).touches(x, y)
}

/// Whether no coordinate occurs twice in `points`.
pub open spec fn distinct(points: Seq<Point>) -> bool {
    forall|i: int, j: int| 0 <= i < j < points.len() ==> #[trigger] points[i] != #[trigger] points[j]
}

/// Whether the points come in reading order: row by row from the top, and
/// from left to right within a row.
pub open spec fn in_reading_order(points: Seq<Point>) -> bool {
    forall|i: int, j: int|
        0 <= i < j < points.len() ==> (#[trigger] points[i]).y < (#[trigger] points[j]).y || (points[i].y
            == points[j].y && points[i].x < points[j].x)
}

/// Taking one more point of a list adds that point to what the taken part
/// lists.
pub proof fn lemma_listed_step(points: Seq<Point>, i: int, x: int, y: int)
    requires
        0 <= i < points.len(),
    ensures
        listed(points.take(i + 1), x, y) <==> listed(points.take(i), x, y) || points[i].at(x, y),
{
    let shorter = points.take(i);
    let longer = points.take(i + 1);
    if listed(shorter, x, y) {
        let k = choose|k: int| 0 <= k < shorter.len() && (#[trigger] shorter[k]).at(x, y);
        assert(longer[k].at(x, y));
    }
    if points[i].at(x, y) {
        assert(longer[i].at(x, y));
    }
    if listed(longer, x, y) && !points[i].at(x, y) {
        let k = choose|k: int| 0 <= k < longer.len() && (#[trigger] longer[k]).at(x, y);
        assert(shorter[k].at(x, y));
    }
}

/// Taking one more point of a list adds the neighbourhood of that point to
/// what the taken part is near.
pub proof fn lemma_near_step(points: Seq<Point>, i: int, x: int, y: int)
    requires
        0 <= i < points.len(),
    ensures
        near(points.take(i + 1), x, y) <==> near(points.take(i), x, y) || points[i].touches(x, y),
{
    let shorter = points.take(i);
    let longer = points.take(i + 1);
    if near(shorter, x, y) {
        let k = choose|k: int| 0 <= k < shorter.len() && (#[trigger] shorter[k]).touches(x, y);
        assert(longer[k].touches(x, y));
    }
    if points[i].touches(x, y) {
        assert(longer[i].touches(x, y));
    }
    if near(longer, x, y) && !points[i].touches(x, y) {
        let k = choose|k: int| 0 <= k < longer.len() && (#[trigger] longer[k]).touches(x, y);
        assert(shorter[k].touches(x, y));
    }
}

} // verus!
