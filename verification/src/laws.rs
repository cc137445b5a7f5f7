//! What holds of every grid and of every tick.

use vstd::prelude::*;
use crate::cell::Cell;
use crate::model::GridView;
use crate::point::{Point, listed};
use crate::simulation::SimulationView;

verus! {

impl Cell {
    /// Whether a cell in this state can be in state `next` one tick later.
    /// Within one tick a cell moves forward along the cycle from empty
    /// ground to tree to fire and back to empty ground, or stays: empty
    /// ground may grow a tree and that tree may catch fire at once, a tree
    /// stays or catches fire, and fire always burns out.
    pub open spec fn may_become(self, next: Cell) -> bool {
        match self {
            Cell::Empty => true,
            Cell::Tree => next != Cell::Empty,
            Cell::Fire => next == Cell::Empty,
        }
    }
}

impl SimulationView {
    /// Whether fire can spread from `(x, y)` in the coming tick: the cell
    /// burns already, or lightning sets it on fire.
    pub open spec fn kindles(self, picks: Seq<Point>, target: Option<Point>, x: int, y: int) -> bool {
        ||| self.grid.cell(x, y) == Cell::Fire
        ||| self.strikes(picks, target) && target.unwrap().at(x, y)
    }
}

/// After the boundary is enforced, every cell of the outer ring is empty,
/// whatever the size of the grid.
pub proof fn lemma_enforced_boundary_is_clear(grid: GridView)
    ensures
        grid.boundary_enforced().boundary_clear(),
{
}

/// Enforcing the boundary changes the outer ring only.
pub proof fn lemma_enforced_boundary_keeps_interior(grid: GridView, x: int, y: int)
    requires
        grid.interior(x, y),
    ensures
        grid.boundary_enforced().cell(x, y) == grid.cell(x, y),
{
}

/// Enforcing the boundary twice gives the same grid as enforcing it once.
pub proof fn lemma_enforce_boundary_idempotent(grid: GridView)
    ensures
        grid.boundary_enforced().boundary_enforced() == grid.boundary_enforced(),
{
    let once = grid.boundary_enforced();
    once.boundary_enforced().lemma_equal_by_cells(once);
}

/// A tick keeps the grid a rectangle of its size with an empty outer ring.
pub proof fn lemma_tick_keeps_boundary(sim: SimulationView, picks: Seq<Point>, target: Option<Point>)
    requires
        sim.wf(),
        sim.accepts(picks, target),
    ensures
        sim.ticked(picks, target).wf(),
        sim.ticked(picks, target).grid.width == sim.grid.width,
        sim.ticked(picks, target).grid.height == sim.grid.height,
{
    let after = sim.ticked(picks, target).grid;
    assert forall|x: int, y: int| after.on_boundary(x, y) implies after.cell(x, y) == Cell::Empty by {
        sim.lemma_kindled_cell(picks, target, x, y);
    }
}

/// Over one tick every cell follows the cycle from empty ground to tree to
/// fire to empty ground: a tree never turns to empty ground without burning,
/// and fire never turns back into a tree or keeps burning.
pub proof fn lemma_tick_follows_cycle(
    sim: SimulationView,
    picks: Seq<Point>,
    target: Option<Point>,
    x: int,
    y: int,
)
    requires
        sim.wf(),
        sim.accepts(picks, target),
    ensures
        sim.grid.cell(x, y).may_become(sim.ticked(picks, target).grid.cell(x, y)),
{
    sim.lemma_kindled_cell(picks, target, x, y);
}

/// Empty ground that holds something after a tick is an interior cell at
/// which a tree was spawned in that tick.
pub proof fn lemma_trees_grow_where_picked(
    sim: SimulationView,
    picks: Seq<Point>,
    target: Option<Point>,
    x: int,
    y: int,
)
    requires
        sim.wf(),
        sim.accepts(picks, target),
        sim.grid.cell(x, y) == Cell::Empty,
        sim.ticked(picks, target).grid.cell(x, y) != Cell::Empty,
    ensures
        listed(picks, x, y),
        sim.grid.interior(x, y),
{
    sim.lemma_kindled_cell(picks, target, x, y);
    let i = choose|i: int| 0 <= i < picks.len() && (#[trigger] picks[i]).at(x, y);
    assert(sim.grid.interior(picks[i].x as int, picks[i].y as int));
}

/// A cell that turns to empty ground in a tick was burning when the tick
/// began: no cell outside the frontier is cleared.
pub proof fn lemma_only_fire_is_cleared(
    sim: SimulationView,
    picks: Seq<Point>,
    target: Option<Point>,
    x: int,
    y: int,
)
    requires
        sim.wf(),
        sim.accepts(picks, target),
        sim.grid.cell(x, y) != Cell::Empty,
        sim.ticked(picks, target).grid.cell(x, y) == Cell::Empty,
    ensures
        sim.grid.cell(x, y) == Cell::Fire,
{
    sim.lemma_kindled_cell(picks, target, x, y);
}

/// Fire spreads by one ring per tick at most: a cell that burns after a tick
/// is, or touches, a cell that burnt before the tick or that lightning
/// struck in it.
pub proof fn lemma_fire_spreads_one_ring(
    sim: SimulationView,
    picks: Seq<Point>,
    target: Option<Point>,
    x: int,
    y: int,
)
    requires
        sim.wf(),
        sim.accepts(picks, target),
        sim.ticked(picks, target).grid.cell(x, y) == Cell::Fire,
    ensures
        exists|a: int, b: int|
            x - 1 <= a <= x + 1 && y - 1 <= b <= y + 1 && #[trigger] sim.kindles(picks, target, a, b),
{
    let kindled = sim.kindled(picks, target);
    sim.lemma_kindled_cell(picks, target, x, y);
    if kindled.cell(x, y) == Cell::Fire {
        assert(sim.kindles(picks, target, x, y));
    } else {
        kindled.lemma_burning_neighbor(x, y);
        let (a, b) = choose|a: int, b: int| #[trigger] kindled.burns_beside(x, y, a, b);
        sim.lemma_kindled_cell(picks, target, a, b);
        assert(sim.kindles(picks, target, a, b));
    }
}

/// A tree that touches a burning cell when a tick begins burns when the tick
/// is over: fire does spread by one ring.
pub proof fn lemma_fire_reaches_neighbors(
    sim: SimulationView,
    picks: Seq<Point>,
    target: Option<Point>,
    source: Point,
    x: int,
    y: int,
)
    requires
        sim.wf(),
        sim.accepts(picks, target),
        sim.grid.cell(source.x as int, source.y as int) == Cell::Fire,
        source.touches(x, y),
        sim.grid.cell(x, y) == Cell::Tree,
    ensures
        sim.ticked(picks, target).grid.cell(x, y) == Cell::Fire,
{
    sim.lemma_kindled_cell(picks, target, x, y);
    sim.lemma_kindled_cell(picks, target, source.x as int, source.y as int);
}

/// A burning cell is empty ground one tick later, whatever its neighbours
/// hold.
pub proof fn lemma_fire_burns_out(
    sim: SimulationView,
    picks: Seq<Point>,
    target: Option<Point>,
    x: int,
    y: int,
)
    requires
        sim.wf(),
        sim.accepts(picks, target),
        sim.grid.cell(x, y) == Cell::Fire,
    ensures
        sim.ticked(picks, target).grid.cell(x, y) == Cell::Empty,
{
}

/// A cell that burns after a tick did not burn before it: it caught fire in
/// that tick, so every fire lasts one tick exactly.
pub proof fn lemma_fire_is_fresh(
    sim: SimulationView,
    picks: Seq<Point>,
    target: Option<Point>,
    x: int,
    y: int,
)
    requires
        sim.wf(),
        sim.accepts(picks, target),
        sim.ticked(picks, target).grid.cell(x, y) == Cell::Fire,
    ensures
        sim.grid.cell(x, y) != Cell::Fire,
{
}

/// Lightning that is due and aims at a tree sets that tree on fire and
/// resets the clock.
pub proof fn lemma_lightning_ignites_tree(sim: SimulationView, picks: Seq<Point>, target: Point)
    requires
        sim.wf(),
        sim.accepts(picks, Some(target)),
        sim.lightning_due(),
        sim.grid.cell(target.x as int, target.y as int) == Cell::Tree,
    ensures
        sim.ticked(picks, Some(target)).grid.cell(target.x as int, target.y as int) == Cell::Fire,
        sim.ticked(picks, Some(target)).clock == 0,
{
    sim.lemma_kindled_cell(picks, Some(target), target.x as int, target.y as int);
}

} // verus!
