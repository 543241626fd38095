use openmines_server::granular::{CandidateCell, CellSample, GranularChunkKey, GranularFrontier, GranularIntent};
use openmines_server::granular_tick::{
    granular_physics_tick, seed_active_region, GranularWakeQueue, RegionSeeds,
};
use openmines_server::physics_world::{
    activate_neighborhood, apply_granular_intents, apply_moves, CellDefs, PhysicsWorld,
};
use openmines_server::sand::sand_physics_tick;

const EMPTY: u8 = 32;
const GATE: u8 = 30;
const ROAD: u8 = 35;
const GOLDEN_ROAD: u8 = 36;
const SAND: u8 = 100;
const BOULDER: u8 = 101;
const CRYSTAL: u8 = 107;
const EMPTY_DUR: u32 = 0;

fn defs() -> CellDefs {
    let props: Vec<CellSample> = (0..=255u8)
        .map(|i| CellSample {
            cell: i,
            is_empty: matches!(i, EMPTY | GATE | ROAD | GOLDEN_ROAD),
            is_sand: i == SAND,
            is_boulder: i == BOULDER,
        })
        .collect();
    CellDefs::new(props).unwrap()
}

/// A `w × h` world of `fill`, with `cells` set on top.
fn world(w: i32, h: i32, fill: u8, cells: &[(i32, i32, u8)]) -> PhysicsWorld {
    let mut grid = vec![fill; (w * h) as usize];
    for &(x, y, c) in cells {
        grid[(y * w + x) as usize] = c;
    }
    let dur: Vec<u32> = (0..(w * h) as u32).collect();
    PhysicsWorld::new(w, h, grid, dur).unwrap()
}

/// The isolated column at x = 64 of the road/gate scene.
fn road_gate_scene() -> PhysicsWorld {
    let x = 64;
    let mut cells = Vec::new();
    for y in 52..66 {
        cells.push((x, y, EMPTY));
    }
    cells.push((x, 51, CRYSTAL));
    cells.push((x, 66, CRYSTAL));
    cells.push((x, 58, ROAD));
    cells.push((x, 60, GATE));
    cells.push((x, 52, SAND));
    world(128, 128, CRYSTAL, &cells)
}

/// The isolated column at x = 64 over a golden road.
fn golden_road_scene() -> PhysicsWorld {
    let x = 64;
    let mut cells = Vec::new();
    for y in 52..60 {
        cells.push((x, y, EMPTY));
    }
    cells.push((x, 51, CRYSTAL));
    cells.push((x, 60, GOLDEN_ROAD));
    cells.push((x, 52, SAND));
    world(128, 128, CRYSTAL, &cells)
}

fn run_granular(w: &mut PhysicsWorld, d: &CellDefs, seed: (i32, i32), ticks: u64) {
    let mut frontier = GranularFrontier::new();
    let mut wake = GranularWakeQueue::new();
    let mut seeds = RegionSeeds::new();
    wake.seed_region(seed.0, seed.1);
    for t in 0..ticks {
        granular_physics_tick(w, d, &mut frontier, &mut wake, &mut seeds, 1000 + t * 20, EMPTY, EMPTY_DUR);
    }
}

#[test]
fn granular_sand_falls_through_road_gate_rests_on_crystal() {
    let d = defs();
    let mut w = road_gate_scene();
    assert!(!w.passable(&d, 64, 66));
    assert!(w.passable(&d, 64, 58));
    assert!(w.passable(&d, 64, 60));
    run_granular(&mut w, &d, (64, 60), 40);
    assert_eq!(w.cell(64, 66), Some(CRYSTAL));
    assert_eq!(w.cell(64, 65), Some(SAND));
    assert_eq!(w.cell(64, 52), Some(EMPTY));
}

#[test]
fn granular_sand_does_not_eat_golden_road() {
    let d = defs();
    let mut w = golden_road_scene();
    assert!(!w.passable(&d, 64, 60));
    run_granular(&mut w, &d, (64, 56), 30);
    assert_eq!(w.cell(64, 60), Some(GOLDEN_ROAD));
    assert_eq!(w.cell(64, 59), Some(SAND));
}

#[test]
fn sand_sand_falls_through_road_gate_rests_on_crystal() {
    let d = defs();
    let mut w = road_gate_scene();
    for _ in 0..40 {
        sand_physics_tick(&mut w, &d, &vec![(64, 60)], EMPTY, EMPTY_DUR);
    }
    assert_eq!(w.cell(64, 66), Some(CRYSTAL));
    assert_eq!(w.cell(64, 65), Some(SAND));
    assert_eq!(w.cell(64, 52), Some(EMPTY));
}

#[test]
fn sand_sand_does_not_eat_golden_road() {
    let d = defs();
    let mut w = golden_road_scene();
    for _ in 0..30 {
        sand_physics_tick(&mut w, &d, &vec![(64, 56)], EMPTY, EMPTY_DUR);
    }
    assert_eq!(w.cell(64, 60), Some(GOLDEN_ROAD));
    assert_eq!(w.cell(64, 59), Some(SAND));
}

#[test]
fn cell_defs_need_one_entry_per_id() {
    let short: Vec<CellSample> = (0..10u8)
        .map(|i| CellSample { cell: i, is_empty: false, is_sand: false, is_boulder: false })
        .collect();
    assert!(CellDefs::new(short).is_none());
    let mut shifted: Vec<CellSample> = (0..=255u8)
        .map(|i| CellSample { cell: i, is_empty: false, is_sand: false, is_boulder: false })
        .collect();
    shifted[7].cell = 8;
    assert!(CellDefs::new(shifted).is_none());
}

#[test]
fn world_rejects_mismatched_sizes() {
    assert!(PhysicsWorld::new(2, 2, vec![0; 3], vec![0; 3]).is_none());
    assert!(PhysicsWorld::new(2, 2, vec![0; 4], vec![0; 3]).is_none());
    assert!(PhysicsWorld::new(-1, 2, vec![], vec![]).is_none());
    let w = PhysicsWorld::new(2, 2, vec![1, 2, 3, 4], vec![5, 6, 7, 8]).unwrap();
    assert_eq!(w.cell(1, 1), Some(4));
    assert_eq!(w.durability(0, 1), Some(7));
    assert_eq!(w.cell(2, 0), None);
    assert_eq!(w.cell(-1, 0), None);
}

#[test]
fn a_move_carries_the_durability_and_empties_the_source() {
    let d = defs();
    let mut w = world(3, 3, EMPTY, &[(1, 0, SAND)]);
    let src_dur = w.durability(1, 0).unwrap();
    let t = GranularIntent { src_x: 1, src_y: 0, dest_x: 1, dest_y: 1, cell: SAND };
    assert!(w.try_move(&d, t, EMPTY, 99));
    assert_eq!(w.cell(1, 0), Some(EMPTY));
    assert_eq!(w.durability(1, 0), Some(99));
    assert_eq!(w.cell(1, 1), Some(SAND));
    assert_eq!(w.durability(1, 1), Some(src_dur));
}

#[test]
fn a_move_into_a_solid_or_golden_road_cell_does_nothing() {
    let d = defs();
    let mut w = world(3, 3, EMPTY, &[(1, 0, SAND), (1, 1, GOLDEN_ROAD), (0, 1, CRYSTAL)]);
    let into_gold = GranularIntent { src_x: 1, src_y: 0, dest_x: 1, dest_y: 1, cell: SAND };
    let into_rock = GranularIntent { src_x: 1, src_y: 0, dest_x: 0, dest_y: 1, cell: SAND };
    let out_of_world = GranularIntent { src_x: 1, src_y: 0, dest_x: 1, dest_y: 3, cell: SAND };
    assert!(!w.try_move(&d, into_gold, EMPTY, 0));
    assert!(!w.try_move(&d, into_rock, EMPTY, 0));
    assert!(!w.try_move(&d, out_of_world, EMPTY, 0));
    assert_eq!(w.cell(1, 0), Some(SAND));
    assert_eq!(w.cell(1, 1), Some(GOLDEN_ROAD));
}

#[test]
fn snapshots_copy_the_world_and_stop_at_its_edge() {
    let d = defs();
    let w = world(4, 4, EMPTY, &[(0, 0, SAND)]);
    let c = w.snapshot_rect(&d, -1, -1, 3, 3);
    assert_eq!(c.get(0, 0).map(|s| s.cell), Some(SAND));
    assert_eq!(c.get(-1, 0), None);
    assert_eq!(c.get(1, 1).map(|s| s.cell), Some(EMPTY));
    assert_eq!(c.get(2, 2), None);
}

#[test]
fn waking_marks_only_granular_cells_nearby() {
    let d = defs();
    let w = world(8, 8, EMPTY, &[(3, 2, SAND), (4, 4, BOULDER), (5, 3, SAND), (3, 6, SAND)]);
    let mut f = GranularFrontier::new();
    let n = activate_neighborhood(&mut f, &w, &d, 4, 4);
    assert_eq!(n, 3);
    assert_eq!(f.len(), 3);
    assert_eq!(activate_neighborhood(&mut f, &w, &d, 4, 4), 0);
    let (taken, left) = f.take_candidates(10);
    assert_eq!(left, 0);
    assert_eq!(
        taken,
        vec![
            CandidateCell { x: 4, y: 4 },
            CandidateCell { x: 5, y: 3 },
            CandidateCell { x: 3, y: 2 }
        ]
    );
}

#[test]
fn applying_granular_moves_reports_effects_and_wakes_neighbours() {
    let d = defs();
    let mut w = world(5, 5, EMPTY, &[(2, 1, SAND), (2, 0, SAND), (0, 4, CRYSTAL)]);
    let mut f = GranularFrontier::new();
    let moves = vec![
        GranularIntent { src_x: 2, src_y: 1, dest_x: 2, dest_y: 2, cell: SAND },
        GranularIntent { src_x: 0, src_y: 3, dest_x: 0, dest_y: 4, cell: SAND },
    ];
    let r = apply_granular_intents(&mut w, &d, &mut f, &moves, EMPTY, EMPTY_DUR);
    assert_eq!(r.applied, 1);
    assert_eq!(r.effects, vec![(2, 1), (2, 2)]);
    assert_eq!(w.cell(2, 2), Some(SAND));
    assert_eq!(w.cell(2, 1), Some(EMPTY));
    assert_eq!(r.granular_activated, 2);
    assert_eq!(f.len(), 2);
}

#[test]
fn plain_moves_apply_in_order_and_a_later_move_can_be_blocked() {
    let d = defs();
    let mut w = world(3, 3, EMPTY, &[(0, 0, SAND), (2, 0, SAND)]);
    let moves = vec![
        GranularIntent { src_x: 0, src_y: 0, dest_x: 1, dest_y: 1, cell: SAND },
        GranularIntent { src_x: 2, src_y: 0, dest_x: 1, dest_y: 1, cell: SAND },
    ];
    let r = apply_moves(&mut w, &d, &moves, EMPTY, EMPTY_DUR);
    assert_eq!(r.applied, 1);
    assert_eq!(r.effects, vec![(0, 0), (1, 1)]);
    assert_eq!(w.cell(2, 0), Some(SAND));
}

#[test]
fn the_wake_queue_collects_points_and_seeds_once() {
    let mut q = GranularWakeQueue::new();
    assert!(!q.has_work());
    q.wake_neighborhood(10, 10);
    q.wake_neighborhood(10, 10);
    q.seed_region(3, 4);
    q.seed_region(3, 4);
    assert!(q.has_work());
    let (points, seeds) = q.take();
    assert_eq!(points.len(), 15);
    assert_eq!(seeds.len(), 1);
    assert!(!q.has_work());
    q.set_active(true);
    assert!(q.has_work());
}

#[test]
fn a_region_is_rescanned_only_after_five_seconds() {
    let d = defs();
    let w = world(64, 64, EMPTY, &[(10, 10, SAND), (40, 40, SAND)]);
    let mut f = GranularFrontier::new();
    let mut seeds = RegionSeeds::new();
    assert_eq!(seed_active_region(&mut f, &w, &d, &mut seeds, 12, 12, 1_000), (1089, true));
    assert_eq!(f.len(), 1);
    assert_eq!(seed_active_region(&mut f, &w, &d, &mut seeds, 15, 15, 5_999), (0, false));
    assert_eq!(seed_active_region(&mut f, &w, &d, &mut seeds, 15, 15, 6_000), (1089, true));
    assert!(!seeds.try_seed(GranularChunkKey { x: 0, y: 0 }, 6_100));
    assert!(seeds.try_seed(GranularChunkKey { x: 1, y: 1 }, 6_100));
}

#[test]
fn the_granular_tick_takes_at_most_the_budget_and_defers_the_rest() {
    let d = defs();
    let mut cells = Vec::new();
    for y in 0..40 {
        for x in 0..30 {
            cells.push((x, y, SAND));
        }
    }
    let mut w = world(40, 60, EMPTY, &cells);
    let mut f = GranularFrontier::new();
    let mut wake = GranularWakeQueue::new();
    let mut seeds = RegionSeeds::new();
    for y in 0..40 {
        for x in 0..30 {
            wake.wake_neighborhood(x + 1, y + 3);
        }
    }
    let r = granular_physics_tick(&mut w, &d, &mut f, &mut wake, &mut seeds, 0, EMPTY, EMPTY_DUR);
    assert_eq!(r.candidates.len(), 1024);
    assert_eq!(r.deferred, 1200 - 1024);
    assert_eq!(r.candidates[0], CandidateCell { x: 0, y: 39 });
    assert!(r.applied > 0);
    assert!(wake.has_work());
}
