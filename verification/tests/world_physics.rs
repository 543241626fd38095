use openmines_server::granular::{
    analyze_granular_batch, analyze_granular_candidate, canonicalize_granular_intents,
    down_free_cached, granular_slide_order, group_candidates_by_chunk, rect_for_candidates,
    CandidateCell, CellSample, GranularAnalyzeSummary, GranularChunkKey, GranularFrontier,
    GranularIntent, GranularScanCache, GOLDEN_ROAD,
};
use openmines_server::sand::{sand_move, sand_moves_around};

const AIR: CellSample = CellSample { cell: 1, is_empty: true, is_sand: false, is_boulder: false };
const ROCK: CellSample = CellSample { cell: 2, is_empty: false, is_sand: false, is_boulder: false };
const SAND: CellSample = CellSample { cell: 3, is_empty: false, is_sand: true, is_boulder: false };
const BOULDER: CellSample = CellSample { cell: 4, is_empty: false, is_sand: false, is_boulder: true };
const GOLD: CellSample = CellSample { cell: GOLDEN_ROAD, is_empty: true, is_sand: false, is_boulder: false };

/// A snapshot of `rows` (top row first) with its top-left cell at `(0, 0)`.
fn cache(rows: &[&[CellSample]]) -> GranularScanCache {
    let width = rows[0].len();
    let cells: Vec<Option<CellSample>> = rows.iter().flat_map(|r| r.iter().map(|c| Some(*c))).collect();
    GranularScanCache::from_rows(0, 0, width, rows.len(), cells)
}

#[test]
fn sand_over_air_falls_one_row() {
    let c = cache(&[&[AIR, SAND, AIR], &[AIR, AIR, AIR], &[ROCK, ROCK, ROCK], &[ROCK, ROCK, ROCK]]);
    assert_eq!(down_free_cached(&c, 1, 0), 1);
    let r = analyze_granular_candidate(true, &c, 1, 0);
    assert_eq!(
        r.intent,
        Some(GranularIntent { src_x: 1, src_y: 0, dest_x: 1, dest_y: 1, cell: 3 })
    );
    assert_eq!(r.profile.falling_cells, 1);
    assert_eq!(r.profile.blocked, 0);
    assert_eq!(
        sand_move(&c, 1, 0, true),
        Some(GranularIntent { src_x: 1, src_y: 0, dest_x: 1, dest_y: 1, cell: 3 })
    );
}

#[test]
fn sand_does_not_eat_golden_road() {
    let c = cache(&[&[ROCK, SAND, ROCK], &[ROCK, GOLD, ROCK], &[ROCK, ROCK, ROCK], &[ROCK, ROCK, ROCK]]);
    assert_eq!(down_free_cached(&c, 1, 0), 2);
    let r = analyze_granular_candidate(true, &c, 1, 0);
    assert_eq!(r.intent, None);
    assert_eq!(r.profile.blocked, 1);
    assert_eq!(sand_move(&c, 1, 0, false), None);
}

#[test]
fn resting_sand_slides_to_a_free_side() {
    // Sand on sand with air down-left only.
    let c = cache(&[
        &[ROCK, SAND, ROCK],
        &[AIR, SAND, ROCK],
        &[ROCK, ROCK, ROCK],
        &[ROCK, ROCK, ROCK],
        &[ROCK, ROCK, ROCK],
    ]);
    assert_eq!(down_free_cached(&c, 1, 0), 0);
    let slid = Some(GranularIntent { src_x: 1, src_y: 0, dest_x: 0, dest_y: 1, cell: 3 });
    assert_eq!(sand_move(&c, 1, 0, true), slid);
    assert_eq!(sand_move(&c, 1, 0, false), slid);
    assert_eq!(analyze_granular_candidate(true, &c, 1, 0).intent, slid);
}

#[test]
fn boulders_need_the_side_cell_free_too() {
    let c = cache(&[
        &[ROCK, BOULDER, ROCK],
        &[AIR, SAND, ROCK],
        &[ROCK, ROCK, ROCK],
        &[ROCK, ROCK, ROCK],
        &[ROCK, ROCK, ROCK],
    ]);
    assert_eq!(sand_move(&c, 1, 0, true), None);
    let r = analyze_granular_candidate(true, &c, 1, 0);
    assert_eq!(r.intent, None);
    assert_eq!(r.profile.blocked, 1);
}

#[test]
fn out_of_world_and_plain_cells_are_skipped() {
    let c = cache(&[&[ROCK, AIR], &[ROCK, AIR], &[ROCK, AIR], &[ROCK, AIR]]);
    let r = analyze_granular_candidate(false, &c, 0, 0);
    assert_eq!(r.profile.skipped_oob, 1);
    let r = analyze_granular_candidate(true, &c, 0, 0);
    assert_eq!(r.profile.skipped_non_granular, 1);
    assert_eq!(r.intent, None);
}

#[test]
fn slide_order_alternates_with_parity() {
    assert_eq!(granular_slide_order(2, 2), (3, 1));
    assert_eq!(granular_slide_order(2, 3), (1, 3));
}

#[test]
fn sand_scan_plans_one_move_per_falling_cell() {
    // A 39 x 37 snapshot around (17, 16): all air except two grains.
    let width = 39;
    let height = 37;
    let mut cells = vec![Some(AIR); width * height];
    cells[5 * width + 10] = Some(SAND);
    cells[36 * width + 20] = Some(SAND);
    let c = GranularScanCache::from_rows(0, 0, width, height, cells);
    let moves = sand_moves_around(&c, 18, 16);
    // The second grain lies below the scanned square.
    assert_eq!(moves, vec![GranularIntent { src_x: 10, src_y: 5, dest_x: 10, dest_y: 6, cell: 3 }]);
}

#[test]
fn candidates_group_by_chunk_in_key_order() {
    let cands = vec![(40, 1), (1, 1), (-1, 5), (33, 2), (2, 40)];
    let groups = group_candidates_by_chunk(&cands);
    let keys: Vec<(i32, i32)> = groups.iter().map(|(k, _)| (k.x, k.y)).collect();
    assert_eq!(keys, vec![(-1, 0), (0, 0), (0, 1), (1, 0)]);
    assert_eq!(groups[3].1, vec![(40, 1), (33, 2)]);
    assert_eq!(groups[0].0, GranularChunkKey { x: -1, y: 0 });
}

#[test]
fn batch_analysis_collects_moves_and_counters() {
    let c = cache(&[&[AIR, SAND, ROCK], &[AIR, AIR, ROCK], &[ROCK, ROCK, ROCK], &[ROCK, ROCK, ROCK]]);
    let cands = vec![(1, 0), (2, 0), (9, 9)];
    let in_world = vec![true, true, false];
    let s = analyze_granular_batch(&c, &cands, &in_world);
    assert_eq!(s.intents, vec![GranularIntent { src_x: 1, src_y: 0, dest_x: 1, dest_y: 1, cell: 3 }]);
    assert_eq!(s.profile.falling_cells, 1);
    assert_eq!(s.profile.skipped_non_granular, 1);
    assert_eq!(s.profile.skipped_oob, 1);
    assert_eq!(s.batches, 1);
    let mut total = GranularAnalyzeSummary::empty();
    total.absorb(s);
    total.absorb(analyze_granular_batch(&c, &vec![(1, 0)], &vec![true]));
    assert_eq!(total.intents.len(), 2);
    assert_eq!(total.batches, 2);
    assert_eq!(total.profile.falling_cells, 2);
}

#[test]
fn canonical_moves_do_not_depend_on_planning_order() {
    let a = GranularIntent { src_x: 5, src_y: 5, dest_x: 6, dest_y: 6, cell: 3 };
    let b = GranularIntent { src_x: 5, src_y: 5, dest_x: 4, dest_y: 6, cell: 3 };
    let c = GranularIntent { src_x: 1, src_y: 9, dest_x: 1, dest_y: 10, cell: 4 };
    let mut x = vec![a, b, c, a];
    let mut y = vec![c, a, b];
    canonicalize_granular_intents(&mut x);
    canonicalize_granular_intents(&mut y);
    assert_eq!(x, y);
    assert_eq!(x, vec![c, b]);
}

#[test]
fn frontier_hands_out_bottom_rows_first_and_keeps_the_rest() {
    let mut f = GranularFrontier::new();
    assert!(f.insert(CandidateCell { x: 3, y: 1 }));
    assert!(f.insert(CandidateCell { x: 1, y: 5 }));
    assert!(f.insert(CandidateCell { x: 0, y: 5 }));
    assert!(!f.insert(CandidateCell { x: 1, y: 5 }));
    let (taken, stayed) = f.take_candidates(2);
    assert_eq!(taken, vec![CandidateCell { x: 0, y: 5 }, CandidateCell { x: 1, y: 5 }]);
    assert_eq!(stayed, 1);
    let (rest, stayed) = f.take_candidates(10);
    assert_eq!(rest, vec![CandidateCell { x: 3, y: 1 }]);
    assert_eq!(stayed, 0);
}

#[test]
fn snapshot_rect_covers_every_candidate_with_padding() {
    let r = rect_for_candidates(&[(10, 10), (12, 8)]);
    assert_eq!((r.min_x, r.min_y, r.width, r.height), (9, 8, 5, 6));
}
