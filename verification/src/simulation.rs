use vstd::prelude::*;
use rand::rngs::StdRng;
use crate::cell::Cell;
use crate::config::{HEIGHT, LIGHTNING_SPAWN_RATE, TREE_SPAWN_RATE, WIDTH};
use crate::grid::Grid;
use crate::model::GridView;
use crate::point::{Point, listed};
use crate::random::random_in_range;

verus! {

/// The mathematical model of a simulation: the grid, the clock that counts
/// the ticks since the last lightning, and the two rates it was set up with.
#[verifier::ext_equal]
pub ghost struct SimulationView {
    pub grid: GridView,
    pub clock: u64,
    pub tree_spawn_rate: u32,
    pub lightning_spawn_rate: u32,
}

impl SimulationView {
    /// The grid is a full rectangle whose outer ring is empty.
    pub open spec fn wf(self) -> bool {
        self.grid.wf() && self.grid.boundary_clear()
    }

    /// Whether `picks` and `target` are coordinates that a tick accepts:
    /// every pick is an interior cell, and the target is a cell of the grid.
    pub open spec fn accepts(self, picks: Seq<Point>, target: Option<Point>) -> bool {
        &&& forall|i: int| 0 <= i < picks.len() ==> self.grid.interior((#[trigger] picks[i]).x as int, picks[i].y as int)
        &&& target matches Some(p) ==> self.grid.in_bounds(p.x as int, p.y as int)
    }

    /// The clock after one more tick. It stops at the largest value it can
    /// hold.
    pub open spec fn advanced_clock(self) -> u64 {
        if self.clock < u64::MAX {
            (self.clock + 1) as u64
        } else {
            self.clock
        }
    }

    /// Whether lightning strikes in the coming tick: the clock, this tick
    /// counted, has reached the lightning rate.
    pub open spec fn lightning_due(self) -> bool {
        self.advanced_clock() >= self.lightning_spawn_rate
    }

    /// Whether lightning ignites the cell `target` in the coming tick: it is
    /// due, and the cell holds a tree once the spawn attempts at `picks` are
    /// made.
    pub open spec fn strikes(self, picks: Seq<Point>, target: Option<Point>) -> bool {
        &&& self.lightning_due()
        &&& target matches Some(p)
        &&& self.grid.spawned(picks).cell(p.x as int, p.y as int) == Cell::Tree
    }

    /// The grid at the moment fire spreads in the coming tick: trees have
    /// spawned, lightning has struck, and the outer ring has been emptied.
    pub open spec fn kindled(self, picks: Seq<Point>, target: Option<Point>) -> GridView {
        let grown = self.grid.spawned(picks);
        let struck = if self.strikes(picks, target) {
            grown.ignited(target.unwrap().x as int, target.unwrap().y as int)
        } else {
            grown
        };
        struck.boundary_enforced()
    }

    /// The simulation after one tick in which trees try to spawn at `picks`
    /// and lightning, if it is due, aims at `target`. In order: trees spawn,
    /// lightning strikes, the outer ring is emptied, fire spreads by one ring
    /// from every burning cell, and the cells that burnt when the tick began
    /// turn to empty ground. A strike that ignites a tree resets the clock; a
    /// strike that finds no tree leaves lightning due.
    pub open spec fn ticked(self, picks: Seq<Point>, target: Option<Point>) -> SimulationView {
        SimulationView {
            grid: self.kindled(picks, target).spread().extinguished(self.grid),
            clock: if self.strikes(picks, target) {
                0
            } else {
                self.advanced_clock()
            },
            tree_spawn_rate: self.tree_spawn_rate,
            lightning_spawn_rate: self.lightning_spawn_rate,
        }
    }

    /// The simulation with a tree planted in every listed interior cell.
    pub open spec fn seeded(self, sites: Seq<Point>) -> SimulationView {
        SimulationView {
            grid: self.grid.planted(sites),
            clock: self.clock,
            tree_spawn_rate: self.tree_spawn_rate,
            lightning_spawn_rate: self.lightning_spawn_rate,
        }
    }

    /// Whether `picks` and `target` are what a tick draws: one interior cell
    /// for each spawn attempt, as far as the grid has interior cells, and a
    /// cell of the grid for the lightning, if lightning is due and the grid
    /// has a cell.
    pub open spec fn draws(self, picks: Seq<Point>, target: Option<Point>) -> bool {
        &&& self.accepts(picks, target)
        &&& picks.len() == if self.grid.width >= 3 && self.grid.height >= 3 {
            self.tree_spawn_rate as int
        } else {
            0
        }
        &&& target.is_some() == (self.lightning_due() && self.grid.width > 0 && self.grid.height > 0)
    }

    /// What a cell holds at the moment fire spreads in the coming tick: fire
    /// where lightning struck, a tree where one spawned, and else what it held
    /// before. The outer ring is still empty.
    pub proof fn lemma_kindled_cell(self, picks: Seq<Point>, target: Option<Point>, x: int, y: int)
        requires
            self.wf(),
            self.accepts(picks, target),
        ensures
            self.kindled(picks, target).wf(),
            self.kindled(picks, target).width == self.grid.width,
            self.kindled(picks, target).height == self.grid.height,
            self.kindled(picks, target).cell(x, y) == if self.strikes(picks, target) && target.unwrap().at(x, y) {
                Cell::Fire
            } else if self.grid.cell(x, y) == Cell::Empty && listed(picks, x, y) {
                Cell::Tree
            } else {
                self.grid.cell(x, y)
            },
            self.grid.on_boundary(x, y) ==> self.kindled(picks, target).cell(x, y) == Cell::Empty,
    {
        if listed(picks, x, y) {
            let i = choose|i: int| 0 <= i < picks.len() && (#[trigger] picks[i]).at(x, y);
            assert(self.grid.interior(x, y));
        }
    }
}

/// A forest-fire simulation: the grid, the list of the cells that burn, and
/// the lightning clock.
pub struct Simulation {
    grid: Grid,
    frontier: Vec<Point>,
    clock: u64,
    tree_spawn_rate: u32,
    lightning_spawn_rate: u32,
}

impl View for Simulation {
    type V = SimulationView;

    closed spec fn view(&self) -> SimulationView {
        SimulationView {
            grid: self.grid@,
            clock: self.clock,
            tree_spawn_rate: self.tree_spawn_rate,
            lightning_spawn_rate: self.lightning_spawn_rate,
        }
    }
}

impl Simulation {
    /// The outer ring of the grid is empty, and the frontier lists exactly
    /// the burning cells, each once.
    pub closed spec fn wf(&self) -> bool {
        &&& self.grid.wf()
        &&& self.grid@.boundary_clear()
        &&& self.grid@.burning_at(self.frontier@)
    }

    /// The model of a well-formed simulation is well-formed.
    pub proof fn lemma_view_wf(&self)
        requires
            self.wf(),
        ensures
            self@.wf(),
    {
        self.grid.lemma_view_wf();
    }

    /// Makes a simulation of the default size and rates on empty ground.
    pub fn new() -> (sim: Simulation)
        ensures
            sim.wf(),
            sim@ == (SimulationView {
                grid: GridView::empty(WIDTH as nat, HEIGHT as nat),
                clock: 0,
                tree_spawn_rate: TREE_SPAWN_RATE,
                lightning_spawn_rate: LIGHTNING_SPAWN_RATE,
            }),
    {
        Simulation {
            grid: Grid::new(WIDTH, HEIGHT),
            frontier: Vec::new(),
            clock: 0,
            tree_spawn_rate: TREE_SPAWN_RATE,
            lightning_spawn_rate: LIGHTNING_SPAWN_RATE,
        }
    }

    /// Makes a simulation that starts from `grid`, with its outer ring
    /// emptied, and runs at the given rates.
    pub fn from_grid(grid: Grid, tree_spawn_rate: u32, lightning_spawn_rate: u32) -> (sim: Simulation)
        requires
            grid.wf(),
        ensures
            sim.wf(),
            sim@ == (SimulationView {
                grid: grid@.boundary_enforced(),
                clock: 0,
                tree_spawn_rate,
                lightning_spawn_rate,
            }),
    {
        let mut grid = grid;
        grid.enforce_boundary();
        let frontier = grid.burning();
        Simulation { grid, frontier, clock: 0, tree_spawn_rate, lightning_spawn_rate }
    }

    /// Returns the image of the grid for display: row by row, three bytes
    /// per cell, black for empty ground, green for a tree, red for fire.
    pub fn get_buffer(&self) -> (buffer: Vec<u8>)
        requires
            self.wf(),
        ensures
            self@.grid.shown_by(buffer@),
    {
        self.grid.to_rgb()
    }

    /// The grid of the simulation.
    pub fn grid(&self) -> (grid: &Grid)
        requires
            self.wf(),
        ensures
            grid.wf(),
            grid@ == self@.grid,
    {
        &self.grid
    }

    /// The frontier: the coordinates of the cells that burn, each once.
    pub fn frontier(&self) -> (frontier: &Vec<Point>)
        requires
            self.wf(),
        ensures
            self@.grid.burning_at(frontier@),
    {
        &self.frontier
    }

    /// The number of ticks since lightning last set a tree on fire.
    pub fn clock(&self) -> (clock: u64)
        ensures
            clock == self@.clock,
    {
        self.clock
    }

    /// The number of tree spawn attempts per tick.
    pub fn tree_spawn_rate(&self) -> (rate: u32)
        ensures
            rate == self@.tree_spawn_rate,
    {
        self.tree_spawn_rate
    }

    /// The number of ticks that pass before lightning strikes again.
    pub fn lightning_spawn_rate(&self) -> (rate: u32)
        ensures
            rate == self@.lightning_spawn_rate,
    {
        self.lightning_spawn_rate
    }

    /// Tells whether lightning strikes in the coming tick.
    pub fn lightning_due(&self) -> (due: bool)
        ensures
            due == self@.lightning_due(),
    {
        let advanced = if self.clock < u64::MAX {
            self.clock + 1
        } else {
            self.clock
        };
        advanced >= self.lightning_spawn_rate as u64
    }

    /// Seeds the grid with trees: each interior cell becomes a tree with a
    /// chance of `numerator` in `denominator`, independently of the others,
    /// and is left as it is otherwise.
    pub fn random_seed(&mut self, numerator: u32, denominator: u32, rng: &mut StdRng)
        requires
            old(self).wf(),
            0 < denominator,
            numerator <= denominator,
        ensures
            final(self).wf(),
            exists|sites: Seq<Point>| final(self)@ == #[trigger] old(self)@.seeded(sites),
            final(self)@.grid.width == old(self)@.grid.width,
            final(self)@.grid.height == old(self)@.grid.height,
            numerator == 0 ==> final(self)@ == old(self)@,
            numerator == denominator ==> final(self)@.grid == old(self)@.grid.forested(),
    {
        let ghost before = self@;
        self.grid.random_seed(numerator, denominator, rng);
        self.frontier = self.grid.burning();
        proof {
            let sites = choose|sites: Seq<Point>| self.grid@ == #[trigger] before.grid.planted(sites);
            assert(self@ == before.seeded(sites));
        }
    }

    /// Advances the simulation by one tick. Each spawn attempt draws an
    /// interior cell, and lightning, if it is due, draws a cell of the grid.
    pub fn tick(&mut self, rng: &mut StdRng)
        requires
            old(self).wf(),
        ensures
            final(self).wf(),
            exists|picks: Seq<Point>, target: Option<Point>|
                old(self)@.draws(picks, target) && final(self)@ == #[trigger] old(self)@.ticked(picks, target),
            final(self)@.grid.width == old(self)@.grid.width,
            final(self)@.grid.height == old(self)@.grid.height,
    {
        let width = self.grid.width();
        let height = self.grid.height();
        let mut picks: Vec<Point> = Vec::new();
        if width >= 3 && height >= 3 {
            let mut made: u32 = 0;
            while made < self.tree_spawn_rate
                invariant
                    width >= 3,
                    height >= 3,
                    width == self@.grid.width,
                    height == self@.grid.height,
                    made <= self.tree_spawn_rate,
                    picks@.len() == made,
                    forall|i: int| 0 <= i < picks@.len() ==> self@.grid.interior((#[trigger] picks@[i]).x as int, picks@[i].y as int),
                decreases self.tree_spawn_rate - made,
            {
                let x = random_in_range(rng, 1, width - 1);
                let y = random_in_range(rng, 1, height - 1);
                picks.push(Point { x, y });
                made += 1;
            }
        }
        let target = if self.lightning_due() && width > 0 && height > 0 {
            let x = random_in_range(rng, 0, width);
            let y = random_in_range(rng, 0, height);
            Some(Point { x, y })
        } else {
            None
        };
        self.tick_with(&picks, target);
    }

    /// Advances the simulation by one tick in which trees try to spawn at
    /// `picks` and lightning, if it is due, aims at `target`.
    pub fn tick_with(&mut self, picks: &Vec<Point>, target: Option<Point>)
        requires
            old(self).wf(),
            old(self)@.accepts(picks@, target),
        ensures
            final(self).wf(),
            final(self)@ == old(self)@.ticked(picks@, target),
    {
        let ghost before = self@;
        proof {
            self.lemma_view_wf();
        }
        let struck = self.kindle(picks, target);
        proof {
            self.grid.lemma_view_wf();
            assert forall|x: int, y: int|
                {
                    &&& before.grid.cell(x, y) == Cell::Fire ==> self.grid@.cell(x, y) == Cell::Fire
                    &&& self.grid@.on_boundary(x, y) ==> self.grid@.cell(x, y) == Cell::Empty
                    &&& self.grid@.cell(x, y) == Cell::Fire && before.grid.cell(x, y) != Cell::Fire
                        ==> struck.is_some() && struck.unwrap().at(x, y)
                } by {
                before.lemma_kindled_cell(picks@, target, x, y);
            }
            if struck.is_some() {
                before.lemma_kindled_cell(picks@, target, struck.unwrap().x as int, struck.unwrap().y as int);
            }
        }
        self.burn(struck, Ghost(before.grid));
    }

    /// The first half of a tick: trees spawn at `picks`, the clock advances,
    /// lightning strikes at `target` if it is due, and the outer ring is
    /// emptied. Returns the cell that lightning set on fire, if any; the
    /// frontier does not list that cell yet.
    fn kindle(&mut self, picks: &Vec<Point>, target: Option<Point>) -> (struck: Option<Point>)
        requires
            old(self).wf(),
            old(self)@.accepts(picks@, target),
        ensures
            final(self).grid.wf(),
            final(self).grid@ == old(self)@.kindled(picks@, target),
            final(self).frontier@ == old(self).frontier@,
            final(self).clock == old(self)@.ticked(picks@, target).clock,
            final(self).tree_spawn_rate == old(self).tree_spawn_rate,
            final(self).lightning_spawn_rate == old(self).lightning_spawn_rate,
            struck == if old(self)@.strikes(picks@, target) {
                target
            } else {
                None
            },
    {
        self.grid.spawn_trees(picks);
        if self.clock < u64::MAX {
            self.clock = self.clock + 1;
        }
        let mut struck: Option<Point> = None;
        if self.clock >= self.lightning_spawn_rate as u64 {
            if let Some(p) = target {
                if self.grid.ignite(p.x, p.y) {
                    struck = Some(p);
                    self.clock = 0;
                }
            }
        }
        self.grid.enforce_boundary();
        struck
    }

    /// The second half of a tick: fire spreads by one ring from the cells of
    /// the frontier and from the cell that lightning struck, the cells of the
    /// frontier turn to empty ground, and the cells that caught fire in this
    /// tick become the new frontier. `before` is the grid at the start of the
    /// tick.
    fn burn(&mut self, struck: Option<Point>, Ghost(before): Ghost<GridView>)
        requires
            old(self).grid.wf(),
            old(self).grid@.boundary_clear(),
            before.wf(),
            before.width == old(self).grid@.width,
            before.height == old(self).grid@.height,
            before.burning_at(old(self).frontier@),
            forall|x: int, y: int| before.cell(x, y) == Cell::Fire ==> old(self).grid@.cell(x, y) == Cell::Fire,
            forall|x: int, y: int|
                old(self).grid@.cell(x, y) == Cell::Fire && before.cell(x, y) != Cell::Fire ==> struck.is_some()
                    && struck.unwrap().at(x, y),
            struck matches Some(p) ==> {
                &&& old(self).grid@.in_bounds(p.x as int, p.y as int)
                &&& old(self).grid@.cell(p.x as int, p.y as int) == Cell::Fire
                &&& before.cell(p.x as int, p.y as int) != Cell::Fire
            },
        ensures
            final(self).wf(),
            final(self).grid@ == old(self).grid@.spread().extinguished(before),
            final(self).clock == old(self).clock,
            final(self).tree_spawn_rate == old(self).tree_spawn_rate,
            final(self).lightning_spawn_rate == old(self).lightning_spawn_rate,
    {
        let ghost kindled = self.grid@;
        let ghost burnt = self.frontier@;
        let mut sources: Vec<Point> = Vec::new();
        std::mem::swap(&mut sources, &mut self.frontier);
        if let Some(p) = struck {
            sources.push(p);
        }
        proof {
            self.grid.lemma_view_wf();
            lemma_sources(kindled, before, burnt, struck, sources@);
            kindled.lemma_spread_from_all_fires(sources@);
        }
        let mut next = self.grid.burn_trees(&sources);
        let ghost spread = self.grid@;
        let ghost caught = next@;
        if let Some(p) = struck {
            sources.pop();
            next.push(p);
        }
        assert(sources@ =~= burnt);
        self.grid.clear_fire(&sources);
        self.frontier = next;
        proof {
            self.grid.lemma_view_wf();
            spread.lemma_cleared_is_extinguished(before, burnt);
            lemma_next_frontier(kindled, before, self.grid@, struck, caught, next@);
        }
    }
}

/// The list of the cells from which fire spreads in a tick, made of the old
/// frontier and the cell that lightning struck, holds exactly the cells that
/// burn when fire spreads, and all of them lie off the outer ring.
proof fn lemma_sources(
    kindled: GridView,
    before: GridView,
    burnt: Seq<Point>,
    struck: Option<Point>,
    sources: Seq<Point>,
)
    requires
        kindled.wf(),
        kindled.boundary_clear(),
        before.width == kindled.width,
        before.height == kindled.height,
        before.burning_at(burnt),
        forall|x: int, y: int| before.cell(x, y) == Cell::Fire ==> kindled.cell(x, y) == Cell::Fire,
        forall|x: int, y: int|
            kindled.cell(x, y) == Cell::Fire && before.cell(x, y) != Cell::Fire ==> struck.is_some()
                && struck.unwrap().at(x, y),
        struck matches Some(p) ==> {
            &&& kindled.in_bounds(p.x as int, p.y as int)
            &&& kindled.cell(p.x as int, p.y as int) == Cell::Fire
        },
        sources == if struck.is_some() {
            burnt.push(struck.unwrap())
        } else {
            burnt
        },
    ensures
        forall|i: int| 0 <= i < sources.len() ==> kindled.cell((#[trigger] sources[i]).x as int, sources[i].y as int) == Cell::Fire,
        forall|i: int| 0 <= i < sources.len() ==> kindled.interior((#[trigger] sources[i]).x as int, sources[i].y as int),
        forall|x: int, y: int| kindled.cell(x, y) == Cell::Fire ==> listed(sources, x, y),
{
    assert forall|i: int| 0 <= i < sources.len() implies kindled.cell(
        (#[trigger] sources[i]).x as int,
        sources[i].y as int,
    ) == Cell::Fire && kindled.interior(sources[i].x as int, sources[i].y as int) by {
        if i < burnt.len() {
            assert(sources[i] == burnt[i]);
        }
        assert(!kindled.on_boundary(sources[i].x as int, sources[i].y as int));
    }
    assert forall|x: int, y: int| kindled.cell(x, y) == Cell::Fire implies listed(sources, x, y) by {
        if before.cell(x, y) == Cell::Fire {
            let i = choose|i: int| 0 <= i < burnt.len() && (#[trigger] burnt[i]).at(x, y);
            assert(sources[i].at(x, y));
        } else {
            assert(sources[burnt.len() as int].at(x, y));
        }
    }
}

/// The cells that caught fire in a tick, with the cell that lightning
/// struck, are exactly the cells that burn when the tick is over.
proof fn lemma_next_frontier(
    kindled: GridView,
    before: GridView,
    done: GridView,
    struck: Option<Point>,
    caught: Seq<Point>,
    next: Seq<Point>,
)
    requires
        kindled.wf(),
        kindled.boundary_clear(),
        before.width == kindled.width,
        before.height == kindled.height,
        forall|x: int, y: int| before.cell(x, y) == Cell::Fire ==> kindled.cell(x, y) == Cell::Fire,
        forall|x: int, y: int|
            kindled.cell(x, y) == Cell::Fire && before.cell(x, y) != Cell::Fire ==> struck.is_some()
                && struck.unwrap().at(x, y),
        struck matches Some(p) ==> {
            &&& kindled.in_bounds(p.x as int, p.y as int)
            &&& kindled.cell(p.x as int, p.y as int) == Cell::Fire
            &&& before.cell(p.x as int, p.y as int) != Cell::Fire
        },
        kindled.caught_fire(kindled.spread(), caught),
        done == kindled.spread().extinguished(before),
        next == if struck.is_some() {
            caught.push(struck.unwrap())
        } else {
            caught
        },
    ensures
        done.boundary_clear(),
        done.burning_at(next),
{
    assert forall|i: int| 0 <= i < next.len() implies {
        &&& done.in_bounds((#[trigger] next[i]).x as int, next[i].y as int)
        &&& done.cell(next[i].x as int, next[i].y as int) == Cell::Fire
    } by {
        if i < caught.len() {
            assert(next[i] == caught[i]);
        }
    }
    assert forall|x: int, y: int| done.in_bounds(x, y) && done.cell(x, y) == Cell::Fire implies listed(
        next,
        x,
        y,
    ) by {
        if kindled.cell(x, y) == Cell::Tree {
            let i = choose|i: int| 0 <= i < caught.len() && (#[trigger] caught[i]).at(x, y);
            assert(next[i].at(x, y));
        } else {
            assert(next[caught.len() as int].at(x, y));
        }
    }
    assert forall|a: int, b: int| 0 <= a < b < next.len() implies #[trigger] next[a] != #[trigger] next[b] by {
        assert(next[a] == caught[a]);
        if b < caught.len() {
            assert(next[b] == caught[b]);
        }
    }
}

} // verus!
