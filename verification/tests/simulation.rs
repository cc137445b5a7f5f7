use forest_fire::cell::Cell;
use forest_fire::config::{HEIGHT, LIGHTNING_SPAWN_RATE, SIM_SPEED, TREE_SPAWN_RATE, WIDTH};
use forest_fire::driver::{step, tick_period, Action, Control, Input};
use forest_fire::grid::Grid;
use forest_fire::point::Point;
use forest_fire::simulation::Simulation;
use rand::rngs::StdRng;
use rand::SeedableRng;

#[test]
fn default_configuration() {
    assert_eq!(WIDTH, 500);
    assert_eq!(HEIGHT, 500);
    assert_eq!(TREE_SPAWN_RATE, 10);
    assert_eq!(LIGHTNING_SPAWN_RATE, 150);
    assert_eq!(SIM_SPEED, 200);
}

#[test]
fn new_simulation_is_empty_ground_of_default_size() {
    let sim = Simulation::new();
    assert_eq!(sim.grid().width(), 500);
    assert_eq!(sim.grid().height(), 500);
    assert_eq!(sim.clock(), 0);
    assert_eq!(sim.tree_spawn_rate(), 10);
    assert_eq!(sim.lightning_spawn_rate(), 150);
    assert!(sim.frontier().is_empty());
    assert_eq!(sim.grid().cell_at(0, 0), Cell::Empty);
    assert_eq!(sim.grid().cell_at(250, 250), Cell::Empty);
    assert_eq!(sim.grid().cell_at(499, 499), Cell::Empty);
    assert_eq!(sim.get_buffer(), vec![0u8; 500 * 500 * 3]);
}

#[test]
fn from_grid_empties_the_outer_ring_and_finds_the_fires() {
    let mut grid = Grid::new(5, 4);
    grid.set_cell(0, 0, Cell::Fire);
    grid.set_cell(4, 2, Cell::Tree);
    grid.set_cell(3, 2, Cell::Fire);
    grid.set_cell(1, 1, Cell::Fire);
    grid.set_cell(2, 1, Cell::Tree);
    let sim = Simulation::from_grid(grid, 7, 9);
    assert_eq!(sim.tree_spawn_rate(), 7);
    assert_eq!(sim.lightning_spawn_rate(), 9);
    assert_eq!(sim.clock(), 0);
    assert_eq!(sim.frontier(), &vec![Point::new(1, 1), Point::new(3, 2)]);
    for y in 0..4 {
        for x in 0..5 {
            let expected = match (x, y) {
                (1, 1) | (3, 2) => Cell::Fire,
                (2, 1) => Cell::Tree,
                _ => Cell::Empty,
            };
            assert_eq!(sim.grid().cell_at(x, y), expected);
        }
    }
}

#[test]
fn get_buffer_shows_each_cell_in_its_colour() {
    let mut grid = Grid::new(4, 3);
    grid.set_cell(1, 1, Cell::Tree);
    grid.set_cell(2, 1, Cell::Fire);
    grid.set_cell(3, 2, Cell::Tree);
    let sim = Simulation::from_grid(grid, 0, 0);
    let buffer = sim.get_buffer();
    let mut expected = vec![0u8; 4 * 3 * 3];
    expected[(1 * 4 + 1) * 3 + 1] = 255;
    expected[(1 * 4 + 2) * 3] = 255;
    assert_eq!(buffer, expected);
}

#[test]
fn lightning_rate_zero_strikes_every_tick() {
    let mut grid = Grid::new(4, 4);
    grid.set_cell(1, 1, Cell::Tree);
    grid.set_cell(2, 2, Cell::Tree);
    let mut sim = Simulation::from_grid(grid, 0, 0);
    assert!(sim.lightning_due());
    sim.tick_with(&Vec::new(), Some(Point::new(1, 1)));
    assert_eq!(sim.grid().cell_at(1, 1), Cell::Fire);
    assert_eq!(sim.grid().cell_at(2, 2), Cell::Fire);
    assert_eq!(sim.clock(), 0);
    assert!(sim.lightning_due());
}

#[test]
fn tick_on_a_grid_without_interior_changes_nothing() {
    let mut rng = StdRng::seed_from_u64(1);
    for (width, height) in [(0, 0), (1, 1), (2, 2), (2, 7), (5, 1)] {
        let mut sim = Simulation::from_grid(Grid::new(width, height), 4, 1);
        sim.tick(&mut rng);
        sim.tick(&mut rng);
        assert_eq!(sim.get_buffer(), vec![0u8; width * height * 3]);
        assert_eq!(sim.clock(), 2);
    }
}

#[test]
fn tick_period_divides_a_second() {
    assert_eq!(tick_period(200), 5_000_000);
    assert_eq!(tick_period(30), 33_333_333);
    assert_eq!(tick_period(1), 1_000_000_000);
    assert_eq!(tick_period(u32::MAX), 0);
    assert_eq!(tick_period(SIM_SPEED), 5_000_000);
}

#[test]
fn control_starts_running() {
    assert_eq!(Control::new(), Control { quit: false, paused: false });
}

#[test]
fn control_follows_the_input() {
    let start = Control::new();
    assert_eq!(start.on_input(Input::Other), start);
    assert_eq!(start.on_input(Input::Quit), Control { quit: true, paused: false });
    assert_eq!(start.on_input(Input::Escape), Control { quit: true, paused: false });
    let paused = start.on_input(Input::Space);
    assert_eq!(paused, Control { quit: false, paused: true });
    assert_eq!(paused.on_input(Input::Space), start);
    assert_eq!(paused.on_input(Input::Escape), Control { quit: true, paused: true });
    let gone = paused.on_input(Input::Quit);
    assert_eq!(gone.on_input(Input::Space), Control { quit: true, paused: false });
    assert_eq!(gone.on_input(Input::Other), gone);
}

#[test]
fn step_stops_on_quit_and_leaves_the_simulation() {
    let mut rng = StdRng::seed_from_u64(2);
    let mut grid = Grid::new(5, 5);
    grid.set_cell(2, 2, Cell::Fire);
    let mut sim = Simulation::from_grid(grid, 3, 1);
    for paused in [false, true] {
        let control = Control { quit: true, paused };
        assert_eq!(step(&mut sim, control, 200, &mut rng), Action::Stop);
        assert_eq!(sim.grid().cell_at(2, 2), Cell::Fire);
        assert_eq!(sim.clock(), 0);
        assert_eq!(sim.frontier(), &vec![Point::new(2, 2)]);
    }
}

#[test]
fn step_sleeps_through_a_pause() {
    let mut rng = StdRng::seed_from_u64(3);
    let mut grid = Grid::new(5, 5);
    grid.set_cell(2, 2, Cell::Fire);
    let mut sim = Simulation::from_grid(grid, 3, 1);
    let control = Control { quit: false, paused: true };
    assert_eq!(step(&mut sim, control, 200, &mut rng), Action::Sleep(5_000_000));
    assert_eq!(sim.grid().cell_at(2, 2), Cell::Fire);
    assert_eq!(sim.clock(), 0);
    assert_eq!(sim.get_buffer().iter().filter(|&&b| b != 0).count(), 1);
}

#[test]
fn step_ticks_once_and_asks_for_the_pause() {
    let mut rng = StdRng::seed_from_u64(4);
    let mut grid = Grid::new(5, 5);
    grid.set_cell(2, 2, Cell::Fire);
    let mut sim = Simulation::from_grid(grid, 0, 1000);
    let control = Control::new();
    assert_eq!(step(&mut sim, control, 200, &mut rng), Action::Sleep(5_000_000));
    assert_eq!(sim.grid().cell_at(2, 2), Cell::Empty);
    assert_eq!(sim.clock(), 1);
    assert_eq!(step(&mut sim, control, 30, &mut rng), Action::Sleep(33_333_333));
    assert_eq!(sim.clock(), 2);
}
