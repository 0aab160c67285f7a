use cosmic_library::grid::{Cell, SimulationEngine, CELL_COUNT};

fn adjacent(a: &Cell, b: &Cell) -> bool {
    (a.x - b.x).abs() + (a.y - b.y).abs() + (a.z - b.z).abs() == 1
}

#[test]
fn new_grid_is_empty() {
    let e = SimulationEngine::new();
    assert_eq!(e.step, 0);
    assert_eq!(e.grid.len(), CELL_COUNT);
    assert_eq!(e.count_active_cells(), 0);
    assert!(e.active_cells().is_empty());
    assert_eq!(e.state_at(0, 0, 0), Some(0));
    assert_eq!(e.state_at(-25, 25, -25), Some(0));
    assert_eq!(e.state_at(26, 0, 0), None);
}

#[test]
fn inject_state_inside_and_outside() {
    let mut e = SimulationEngine::new();
    assert!(e.inject_state(3, -4, 25, 1));
    assert_eq!(e.state_at(3, -4, 25), Some(1));
    assert_eq!(e.count_active_cells(), 1);
    assert!(!e.inject_state(0, 0, -26, 1));
    assert_eq!(e.count_active_cells(), 1);
}

#[test]
fn apply_changes_skips_positions_off_the_grid() {
    let mut e = SimulationEngine::new();
    let changes = vec![
        Cell { x: 1, y: 2, z: 3, state: -1 },
        Cell { x: 100, y: 0, z: 0, state: 1 },
        Cell { x: -25, y: -25, z: -25, state: 1 },
    ];
    e.apply_changes(&changes);
    assert_eq!(e.state_at(1, 2, 3), Some(-1));
    assert_eq!(e.state_at(-25, -25, -25), Some(1));
    assert_eq!(e.count_active_cells(), 2);
    assert_eq!(e.step, 0);
}

#[test]
fn apply_changes_last_write_wins() {
    let mut e = SimulationEngine::new();
    let changes = vec![Cell { x: 0, y: 0, z: 0, state: 1 }, Cell { x: 0, y: 0, z: 0, state: -1 }];
    e.apply_changes(&changes);
    assert_eq!(e.state_at(0, 0, 0), Some(-1));
}

#[test]
fn active_cells_in_storage_order() {
    let mut e = SimulationEngine::new();
    e.inject_state(5, 0, 0, -1);
    e.inject_state(-5, 2, 1, 1);
    let cells = e.active_cells();
    assert_eq!(
        cells,
        vec![Cell { x: -5, y: 2, z: 1, state: 1 }, Cell { x: 5, y: 0, z: 0, state: -1 }]
    );
}

#[test]
fn tick_on_empty_grid_only_counts_the_step() {
    let mut e = SimulationEngine::new();
    let updates = e.tick();
    assert!(updates.is_empty());
    assert_eq!(e.step, 1);
    assert_eq!(e.count_active_cells(), 0);
}

#[test]
fn tick_moves_a_lone_cell_to_a_neighbour() {
    let mut e = SimulationEngine::new();
    e.inject_state(0, 0, 0, 1);
    let updates = e.tick();
    assert_eq!(e.step, 1);
    assert_eq!(updates.len(), 2);
    let (target, origin) = (&updates[0], &updates[1]);
    assert_eq!(*origin, Cell { x: 0, y: 0, z: 0, state: 0 });
    assert_eq!(target.state, 1);
    assert!(adjacent(target, origin));
    assert_eq!(e.state_at(0, 0, 0), Some(0));
    assert_eq!(e.state_at(target.x, target.y, target.z), Some(1));
    assert_eq!(e.count_active_cells(), 1);
}

#[test]
fn tick_keeps_a_corner_cell_on_the_grid() {
    let mut e = SimulationEngine::new();
    e.inject_state(25, 25, 25, -1);
    let updates = e.tick();
    assert_eq!(updates.len(), 2);
    let t = &updates[0];
    assert!(t.x <= 25 && t.y <= 25 && t.z <= 25);
    assert!(adjacent(t, &updates[1]));
    assert_eq!(e.state_at(t.x, t.y, t.z), Some(-1));
    assert_eq!(e.count_active_cells(), 1);
}

#[test]
fn tick_leaves_an_enclosed_cell_in_place() {
    let mut e = SimulationEngine::new();
    e.inject_state(0, 0, 0, -1);
    for (x, y, z) in [(1, 0, 0), (-1, 0, 0), (0, 1, 0), (0, -1, 0), (0, 0, 1), (0, 0, -1)] {
        e.inject_state(x, y, z, 1);
    }
    let updates = e.tick();
    assert_eq!(e.state_at(0, 0, 0), Some(-1));
    assert!(updates.iter().all(|c| !(c.x == 0 && c.y == 0 && c.z == 0)));
    assert_eq!(updates.len(), 12);
    assert_eq!(e.count_active_cells(), 7);
}

#[test]
fn tick_never_writes_a_cell_twice() {
    let mut e = SimulationEngine::new();
    for x in -3..=3 {
        e.inject_state(x, 0, 0, 1);
    }
    let updates = e.tick();
    assert_eq!(updates.len() % 2, 0);
    for a in 0..updates.len() {
        for b in (a + 1)..updates.len() {
            let (p, q) = (&updates[a], &updates[b]);
            assert!(!(p.x == q.x && p.y == q.y && p.z == q.z));
        }
    }
    for pair in updates.chunks(2) {
        assert!(adjacent(&pair[0], &pair[1]));
        assert_eq!(pair[0].state, 1);
        assert_eq!(pair[1].state, 0);
    }
    assert_eq!(e.count_active_cells(), 7);
}
