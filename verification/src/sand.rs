//! Sand and boulders around players: each granular cell in view falls one
//! row when it can, or slides down to a side picked at random.
use vstd::prelude::*;
use crate::credentials::random_index;
use crate::physics_world::{
    CellDefs, GridView, PhysicsWorld, apply_moves, defs_table, grid_cell, grid_granular, grid_wf,
    apply_passes, infrastructure_not_granular, is_fixed_cell, is_infrastructure, lemma_apply_keeps_fixed_cells,
    lemma_passes_keep_fixed_cells, passes_from_granular, grid_sample, in_grid, plain_apply, sources_granular,
    sources_in_grid,
};
use crate::granular::{
    CellSample, canonical_for, canonicalize_granular_intents,
    can_slide, down_free_cached, granular_at, is_granular_cached, is_passable_cached, passable_at,
    sample_granular, spec_down_free, GranularIntent, GranularScanCache,
};

verus! {

/// How far around a player cells are scanned.
pub const SAND_SCAN_RADIUS: i32 = 16;

/// Cells per scanned row (and rows per scan).
pub const SAND_SCAN_SIDE: usize = 33;

/// The move of the cell at `(sx, sy)` of the snapshot; `coin` picks which
/// side a resting cell tries first (`true`: right). Cells outside the
/// snapshot, non-granular cells and blocked cells do not move.
pub open spec fn spec_sand_move(cache: GranularScanCache, sx: int, sy: int, coin: bool) -> Option<
    GranularIntent,
> {
    match cache.cell_at(sx, sy) {
        None => None,
        Some(c) => if !sample_granular(c) {
            None
        } else {
            let df = spec_down_free(cache, sx, sy);
            let mk = |dx: int|
                GranularIntent {
                    src_x: sx as i32,
                    src_y: sy as i32,
                    dest_x: dx as i32,
                    dest_y: (sy + 1) as i32,
                    cell: c.cell,
                };
            if df == 1 {
                Some(mk(sx))
            } else if df != 0 {
                None
            } else {
                let (first, second) = if coin {
                    (sx + 1, sx - 1)
                } else {
                    (sx - 1, sx + 1)
                };
                if can_slide(cache, c.is_sand, first, sy) {
                    Some(mk(first))
                } else if can_slide(cache, c.is_sand, second, sy) {
                    Some(mk(second))
                } else {
                    None
                }
            }
        },
    }
}

/// The move of one cell (see `spec_sand_move`).
pub fn sand_move(cache: &GranularScanCache, sx: i32, sy: i32, coin: bool) -> (r: Option<
    GranularIntent,
>)
    requires
        cache.wf(),
        i32::MIN < sx < i32::MAX,
        sy <= i32::MAX - 3,
    ensures
        r == spec_sand_move(*cache, sx as int, sy as int, coin),
{
    let c = match cache.get(sx, sy) {
        None => return None,
        Some(c) => c,
    };
    if !(c.is_sand || c.is_boulder) {
        return None;
    }
    let df = down_free_cached(cache, sx, sy);
    if df == 1 {
        return Some(GranularIntent { src_x: sx, src_y: sy, dest_x: sx, dest_y: sy + 1, cell: c.cell });
    }
    if df != 0 {
        return None;
    }
    let (first, second) = if coin {
        (sx + 1, sx - 1)
    } else {
        (sx - 1, sx + 1)
    };
    if is_passable_cached(cache, first, sy + 1) && (c.is_sand || is_passable_cached(cache, first, sy)) {
        Some(GranularIntent { src_x: sx, src_y: sy, dest_x: first, dest_y: sy + 1, cell: c.cell })
    } else if is_passable_cached(cache, second, sy + 1) && (c.is_sand || is_passable_cached(
        cache,
        second,
        sy,
    )) {
        Some(GranularIntent { src_x: sx, src_y: sy, dest_x: second, dest_y: sy + 1, cell: c.cell })
    } else {
        None
    }
}

/// Whether a cell moves does not depend on the side tried first.
pub proof fn lemma_sand_move_coin_free(cache: GranularScanCache, sx: int, sy: int)
    ensures
        spec_sand_move(cache, sx, sy, true) is Some <==> spec_sand_move(cache, sx, sy, false) is Some,
{
}

/// The cell at `(x, y)` of the snapshot is sand.
pub open spec fn sand_at(cache: GranularScanCache, x: int, y: int) -> bool {
    cache.cell_at(x, y) matches Some(c) && c.is_sand
}

/// What a planned move looks like, stated over the cells of the snapshot:
/// only sand and boulders move; a cell whose down-free value is 2 (the cell
/// below is neither passable nor granular, or the column below has to
/// clear first) stays put; a cell with a free cell below and no waiting
/// column falls straight down; a cell resting on granular material only
/// ever slides one column aside into a free cell, and stays put when
/// neither side is free; the coin picks the side tried first (`true`:
/// right), and a boulder also needs the cell beside it to be free. Every
/// move starts at its cell, goes one row down and carries the cell's own
/// value.
pub proof fn lemma_sand_move_rules(cache: GranularScanCache, sx: int, sy: int, coin: bool)
    requires
        i32::MIN < sx < i32::MAX,
        i32::MIN <= sy <= i32::MAX - 3,
    ensures
        !granular_at(cache, sx, sy) ==> spec_sand_move(cache, sx, sy, coin) is None,
        spec_down_free(cache, sx, sy) == 2 ==> spec_sand_move(cache, sx, sy, coin) is None,
        !passable_at(cache, sx, sy + 1) && !granular_at(cache, sx, sy + 1)
            ==> spec_sand_move(cache, sx, sy, coin) is None,
        passable_at(cache, sx, sy + 1) && granular_at(cache, sx, sy + 2) && passable_at(
            cache,
            sx,
            sy + 3,
        ) ==> spec_sand_move(cache, sx, sy, coin) is None,
        granular_at(cache, sx, sy) && passable_at(cache, sx, sy + 1) && !(granular_at(
            cache,
            sx,
            sy + 2,
        ) && passable_at(cache, sx, sy + 3)) ==> (spec_sand_move(cache, sx, sy, coin) matches Some(
            t,
        ) && t.dest_x == sx),
        spec_sand_move(cache, sx, sy, coin) matches Some(t) ==> {
            &&& cache.cell_at(sx, sy) matches Some(c) && t.cell == c.cell
            &&& t.src_x == sx && t.src_y == sy && t.dest_y == sy + 1
            &&& passable_at(cache, t.dest_x as int, sy + 1)
            &&& t.dest_x == sx || t.dest_x == sx - 1 || t.dest_x == sx + 1
            &&& t.dest_x != sx ==> !passable_at(cache, sx, sy + 1) && granular_at(cache, sx, sy + 1)
            &&& t.dest_x != sx && !sand_at(cache, sx, sy) ==> passable_at(cache, t.dest_x as int, sy)
        },
        cache.cell_at(sx, sy) matches Some(c) && sample_granular(c) && !passable_at(cache, sx, sy + 1)
            && granular_at(cache, sx, sy + 1) && can_slide(
            cache,
            c.is_sand,
            if coin {
                sx + 1
            } else {
                sx - 1
            },
            sy,
        ) ==> (spec_sand_move(cache, sx, sy, coin) matches Some(t) && t.dest_x == (if coin {
            sx + 1
        } else {
            sx - 1
        })),
        cache.cell_at(sx, sy) matches Some(c) && c.is_sand && !passable_at(cache, sx, sy + 1)
            && granular_at(cache, sx, sy + 1) && (passable_at(cache, sx - 1, sy + 1) || passable_at(
            cache,
            sx + 1,
            sy + 1,
        )) ==> spec_sand_move(cache, sx, sy, coin) is Some,
{
}

/// The `k`-th cell of the scan around `(px, py)`: rows from the bottom row
/// up, each row from left to right.
pub open spec fn scan_cell(px: int, py: int, k: int) -> (int, int) {
    (px - SAND_SCAN_RADIUS + k % 33, py + SAND_SCAN_RADIUS - k / 33)
}

/// The scanned cells around `(px, py)` that move, in scan order.
pub open spec fn moving_cells(cache: GranularScanCache, px: int, py: int, n: int) -> Seq<(int, int)> {
    Seq::new(n as nat, |k: int| scan_cell(px, py, k)).filter(
        |c: (int, int)| spec_sand_move(cache, c.0, c.1, true) is Some,
    )
}

/// `t` is the move of its source cell for one of the two sides tried first.
pub open spec fn is_sand_move(cache: GranularScanCache, t: GranularIntent) -> bool {
    spec_sand_move(cache, t.src_x as int, t.src_y as int, true) == Some(t) || spec_sand_move(
        cache,
        t.src_x as int,
        t.src_y as int,
        false,
    ) == Some(t)
}

/// The source cell of a move.
pub open spec fn move_source(t: GranularIntent) -> (int, int) {
    (t.src_x as int, t.src_y as int)
}

/// Plans the moves of the granular cells in the `33 × 33` square around
/// the player at `(px, py)`: one move for every cell that can move, in scan
/// order, each the cell's move for some choice of the side tried first.
pub fn sand_moves_around(cache: &GranularScanCache, px: i32, py: i32) -> (r: Vec<GranularIntent>)
    requires
        cache.wf(),
        i32::MIN + 18 <= px <= i32::MAX - 18,
        i32::MIN + 18 <= py <= i32::MAX - 20,
    ensures
        r@.map_values(|t: GranularIntent| move_source(t)) == moving_cells(
            *cache,
            px as int,
            py as int,
            33 * 33 as int,
        ),
        forall|i: int| 0 <= i < r@.len() ==> is_sand_move(*cache, #[trigger] r@[i]),
{
    let mut out: Vec<GranularIntent> = Vec::new();
    let total: usize = SAND_SCAN_SIDE * SAND_SCAN_SIDE;
    let mut k: usize = 0;
    while k < total
        invariant
            cache.wf(),
            total == 33 * 33,
            k <= total,
            i32::MIN + 18 <= px <= i32::MAX - 18,
            i32::MIN + 18 <= py <= i32::MAX - 20,
            out@.map_values(|t: GranularIntent| move_source(t)) == moving_cells(
                *cache,
                px as int,
                py as int,
                k as int,
            ),
            forall|i: int| 0 <= i < out@.len() ==> is_sand_move(*cache, #[trigger] out@[i]),
        decreases total - k,
    {
        let col = k % SAND_SCAN_SIDE;
        let row = k / SAND_SCAN_SIDE;
        let sx = px - SAND_SCAN_RADIUS + col as i32;
        let sy = py + SAND_SCAN_RADIUS - row as i32;
        let ghost before = out@;
        proof {
            let cells_k = Seq::new(k as nat, |j: int| scan_cell(px as int, py as int, j));
            let cells_k1 = Seq::new((k + 1) as nat, |j: int| scan_cell(px as int, py as int, j));
            assert(cells_k1.drop_last() =~= cells_k);
            assert(cells_k1.last() == (sx as int, sy as int));
            reveal(Seq::filter);
            lemma_sand_move_coin_free(*cache, sx as int, sy as int);
        }
        let coin = random_index(2) == 0;
        match sand_move(cache, sx, sy, coin) {
            Some(t) => {
                out.push(t);
                proof {
                    assert(out@.map_values(|t: GranularIntent| move_source(t)) =~= before.map_values(
                        |t: GranularIntent| move_source(t),
                    ).push((sx as int, sy as int)));
                    assert forall|i: int| 0 <= i < out@.len() implies is_sand_move(
                        *cache,
                        #[trigger] out@[i],
                    ) by {
                        if i < before.len() {
                            assert(out@[i] == before[i]);
                        } else {
                            assert(spec_sand_move(*cache, sx as int, sy as int, coin) == Some(out@[i]));
                        }
                    }
                }
            },
            None => {},
        }
        k = k + 1;
    }
    out
}

/// `c` agrees with the grid `g` on the rectangle that a scan around the
/// player at `(px, py)` reads.
pub open spec fn scan_snapshot(c: GranularScanCache, defs: Seq<CellSample>, g: GridView, px: int, py: int) -> bool {
    &&& c.wf()
    &&& forall|x: int, y: int|
        #![trigger c.cell_at(x, y)]
        px - 17 <= x <= px + 17 && py - 16 <= y <= py + 19 ==> c.cell_at(x, y) == grid_sample(defs, g, x, y)
}

/// `t` is a move that the scan around one of `players` plans.
pub open spec fn planned_by_scan(defs: Seq<CellSample>, g: GridView, players: Seq<(i32, i32)>, t: GranularIntent) -> bool {
    exists|i: int, c: GranularScanCache|
        #![trigger scan_snapshot(c, defs, g, players[i].0 as int, players[i].1 as int), is_sand_move(c, t)]
        0 <= i < players.len() && scan_snapshot(c, defs, g, players[i].0 as int, players[i].1 as int)
            && is_sand_move(c, t)
}

/// Some move of `planned` starts at `c`.
pub open spec fn has_source(planned: Seq<GranularIntent>, c: (int, int)) -> bool {
    exists|k: int| 0 <= k < planned.len() && move_source(#[trigger] planned[k]) == c
}

/// Every cell of `cells` is the source of some move of `planned`.
pub open spec fn sources_covered(cells: Seq<(int, int)>, planned: Seq<GranularIntent>) -> bool {
    forall|m: int| 0 <= m < cells.len() ==> has_source(planned, #[trigger] cells[m])
}

/// Every cell that can move in the scan around player `i` has a move among `planned`.
pub open spec fn scan_covered(defs: Seq<CellSample>, g: GridView, players: Seq<(i32, i32)>, i: int, planned: Seq<GranularIntent>) -> bool {
    exists|c: GranularScanCache|
        #![trigger scan_snapshot(c, defs, g, players[i].0 as int, players[i].1 as int)]
        scan_snapshot(c, defs, g, players[i].0 as int, players[i].1 as int)
            && sources_covered(moving_cells(c, players[i].0 as int, players[i].1 as int, 1089int), planned)
}

/// A player position far enough from the ends of the `i32` range for the scan.
pub open spec fn scan_position_ok(p: (i32, i32)) -> bool {
    i32::MIN + 18 <= p.0 <= i32::MAX - 18 && i32::MIN + 18 <= p.1 <= i32::MAX - 20
}

/// Result of one sand pass.
pub struct SandTickResult {
    /// The moves applied, in canonical order (one per source cell).
    pub moves: Vec<GranularIntent>,
    pub applied: usize,
    pub effects: Vec<(i32, i32)>,
}

/// One pass of the sand physics: the granular cells around every player
/// are scanned on the grid as it stands, each movable cell plans a move
/// (sides picked at random), the plans are put in canonical order with one
/// move per source, and the moves are applied in that order.
pub fn sand_physics_tick(world: &mut PhysicsWorld, defs: &CellDefs, players: &Vec<(i32, i32)>, empty: u8, empty_dur: u32) -> (r: SandTickResult)
    requires
        old(world).wf(),
        defs.wf(),
        forall|i: int| 0 <= i < players@.len() ==> scan_position_ok(#[trigger] players@[i]),
    ensures
        final(world).wf(),
        exists|planned: Seq<GranularIntent>|
            #![trigger canonical_for(r.moves@, planned)]
            canonical_for(r.moves@, planned)
                && (forall|k: int| 0 <= k < planned.len()
                    ==> planned_by_scan(defs.table(), old(world).view(), players@, #[trigger] planned[k]))
                && (forall|i: int| 0 <= i < players@.len()
                    ==> #[trigger] scan_covered(defs.table(), old(world).view(), players@, i, planned)),
        sources_granular(defs.table(), old(world).view(), r.moves@),
        final(world).view() == plain_apply(defs.table(), old(world).view(), r.moves@, empty, empty_dur).grid,
        r.applied == plain_apply(defs.table(), old(world).view(), r.moves@, empty, empty_dur).applied,
        r.effects@ == plain_apply(defs.table(), old(world).view(), r.moves@, empty, empty_dur).effects,
{
    let ghost g0 = world.view();
    let ghost d = defs.table();
    let mut all: Vec<GranularIntent> = Vec::new();
    let mut i: usize = 0;
    while i < players.len()
        invariant
            world.wf(),
            defs.wf(),
            g0 == world.view(),
            d == defs.table(),
            i <= players@.len(),
            forall|j: int| 0 <= j < players@.len() ==> scan_position_ok(#[trigger] players@[j]),
            forall|k: int| 0 <= k < all@.len() ==> planned_by_scan(d, g0, players@, #[trigger] all@[k]),
            forall|k: int| 0 <= k < all@.len() ==> in_grid(g0, (#[trigger] all@[k]).src_x as int, all@[k].src_y as int),
            forall|k: int| 0 <= k < all@.len() ==> grid_granular(d, g0, (#[trigger] all@[k]).src_x as int, all@[k].src_y as int),
            forall|j: int| 0 <= j < i ==> #[trigger] scan_covered(d, g0, players@, j, all@),
        decreases players@.len() - i,
    {
        let (px, py) = players[i];
        proof {
            assert(scan_position_ok(players@[i as int]));
        }
        let cache = world.snapshot_rect(defs, px - 17, py - 16, 35, 36);
        assert(scan_snapshot(cache, d, g0, px as int, py as int));
        let ms = sand_moves_around(&cache, px, py);
        let ghost base = all@;
        let mut k: usize = 0;
        while k < ms.len()
            invariant
                world.wf(),
                defs.wf(),
                g0 == world.view(),
                d == defs.table(),
                i < players@.len(),
                players@[i as int] == (px, py),
                scan_position_ok((px, py)),
                cache.wf(),
                scan_snapshot(cache, d, g0, px as int, py as int),
                forall|x: int, y: int|
                    #![trigger cache.cell_at(x, y)]
                    !(0 <= x - (px - 17) < 35 && 0 <= y - (py - 16) < 36 && x - (px - 17) <= i32::MAX && y - (py - 16) <= i32::MAX)
                        ==> cache.cell_at(x, y) is None,
                forall|m: int| 0 <= m < ms@.len() ==> is_sand_move(cache, #[trigger] ms@[m]),
                ms@.map_values(|t: GranularIntent| move_source(t)) == moving_cells(cache, px as int, py as int, 33 * 33 as int),
                k <= ms@.len(),
                all@ == base + ms@.take(k as int),
                forall|q: int| 0 <= q < all@.len() ==> planned_by_scan(d, g0, players@, #[trigger] all@[q]),
                forall|q: int| 0 <= q < all@.len() ==> in_grid(g0, (#[trigger] all@[q]).src_x as int, all@[q].src_y as int),
                forall|q: int| 0 <= q < all@.len() ==> grid_granular(d, g0, (#[trigger] all@[q]).src_x as int, all@[q].src_y as int),
                forall|j: int| 0 <= j < i ==> #[trigger] scan_covered(d, g0, players@, j, all@),
            decreases ms@.len() - k,
        {
            let t = ms[k];
            proof {
                assert(is_sand_move(cache, t));
                assert(scan_snapshot(cache, d, g0, players@[i as int].0 as int, players@[i as int].1 as int));
                assert(planned_by_scan(d, g0, players@, t));
                let sx = t.src_x as int;
                let sy = t.src_y as int;
                assert(cache.cell_at(sx, sy) is Some);
                assert(in_grid(g0, sx, sy));
                assert(sample_granular(cache.cell_at(sx, sy)->Some_0));
                assert(cache.cell_at(sx, sy) == grid_sample(d, g0, sx, sy));
                assert(grid_granular(d, g0, sx, sy));
                assert forall|j: int| 0 <= j < i implies #[trigger] scan_covered(d, g0, players@, j, all@.push(t)) by {
                    assert(scan_covered(d, g0, players@, j, all@));
                    let c = choose|c: GranularScanCache| #[trigger] scan_snapshot(c, d, g0, players@[j].0 as int, players@[j].1 as int)
                        && sources_covered(moving_cells(c, players@[j].0 as int, players@[j].1 as int, 1089int), all@);
                    let cells = moving_cells(c, players@[j].0 as int, players@[j].1 as int, 1089int);
                    assert forall|m: int| 0 <= m < cells.len() implies has_source(all@.push(t), #[trigger] cells[m]) by {
                        assert(has_source(all@, cells[m]));
                        let q = choose|q: int| 0 <= q < all@.len() && move_source(#[trigger] all@[q]) == cells[m];
                        assert(all@.push(t)[q] == all@[q]);
                    }
                    assert(sources_covered(cells, all@.push(t)));
                }
            }
            all.push(t);
            proof {
                assert(ms@.take(k as int + 1) == ms@.take(k as int).push(t));
            }
            k = k + 1;
        }
        proof {
            assert(ms@.take(ms@.len() as int) == ms@);
            assert(scan_covered(d, g0, players@, i as int, all@)) by {
                let cells = moving_cells(cache, px as int, py as int, 1089int);
                assert forall|m: int| 0 <= m < cells.len() implies has_source(all@, #[trigger] cells[m]) by {
                    assert(ms@.map_values(|t: GranularIntent| move_source(t))[m] == move_source(ms@[m]));
                    assert(all@[base.len() + m] == ms@[m]);
                }
                assert(sources_covered(cells, all@));
                assert(scan_snapshot(cache, d, g0, players@[i as int].0 as int, players@[i as int].1 as int));
            }
        }
        i = i + 1;
    }
    let ghost planned = all@;
    canonicalize_granular_intents(&mut all);
    proof {
        assert forall|k: int| 0 <= k < all@.len() implies in_grid(g0, (#[trigger] all@[k]).src_x as int, all@[k].src_y as int) by {
            assert(planned.contains(all@[k]));
            let q = choose|q: int| 0 <= q < planned.len() && planned[q] == all@[k];
            assert(in_grid(g0, planned[q].src_x as int, planned[q].src_y as int));
        }
        assert(sources_in_grid(g0, all@));
        assert forall|k: int| 0 <= k < all@.len() implies grid_granular(d, g0, (#[trigger] all@[k]).src_x as int, all@[k].src_y as int) by {
            assert(planned.contains(all@[k]));
            let q = choose|q: int| 0 <= q < planned.len() && planned[q] == all@[k];
            assert(grid_granular(d, g0, planned[q].src_x as int, planned[q].src_y as int));
        }
        assert(sources_granular(d, g0, all@));
    }
    let res = apply_moves(world, defs, &all, empty, empty_dur);
    let r = SandTickResult { moves: all, applied: res.applied, effects: res.effects };
    proof {
        assert(canonical_for(r.moves@, planned)
            && (forall|k: int| 0 <= k < planned.len() ==> planned_by_scan(d, g0, players@, #[trigger] planned[k]))
            && (forall|j: int| 0 <= j < players@.len() ==> #[trigger] scan_covered(d, g0, players@, j, planned)));
    }
    r
}


/// A sand pass never overwrites its floors: a cell that sand can neither
/// enter nor move (crystal, rock) and a cell of building infrastructure
/// (golden road, door, polymer road, NOTHING) keep their ids whatever moves
/// the pass applies, since each move starts from sand or a boulder (as
/// `sand_physics_tick` ensures) and enters only empty cells.
pub proof fn lemma_sand_pass_keeps_floors(
    defs: Seq<CellSample>,
    g: GridView,
    moves: Seq<GranularIntent>,
    empty: u8,
    empty_dur: u32,
    x: int,
    y: int,
)
    requires
        grid_wf(g),
        defs_table(defs),
        infrastructure_not_granular(defs),
        sources_granular(defs, g, moves),
        grid_cell(g, x, y) matches Some(c) && (is_fixed_cell(defs, c) || is_infrastructure(c)),
    ensures
        grid_cell(plain_apply(defs, g, moves, empty, empty_dur).grid, x, y) == grid_cell(g, x, y),
{
    let c = grid_cell(g, x, y)->Some_0;
    assert(defs[c as int].cell == c);
    assert(is_fixed_cell(defs, c));
    lemma_apply_keeps_fixed_cells(defs, g, moves, empty, empty_dur, x, y);
}


/// Over any number of sand passes the floors stay: a crystal or rock cell
/// and a cell of building infrastructure keep their ids, since every pass
/// moves only sand or boulders of the grid it finds (as
/// `sand_physics_tick` ensures of each pass) and enters only empty cells.
pub proof fn lemma_sand_passes_keep_floors(
    defs: Seq<CellSample>,
    g: GridView,
    passes: Seq<Seq<GranularIntent>>,
    empty: u8,
    empty_dur: u32,
    x: int,
    y: int,
)
    requires
        grid_wf(g),
        defs_table(defs),
        infrastructure_not_granular(defs),
        passes_from_granular(defs, g, passes, empty, empty_dur),
        grid_cell(g, x, y) matches Some(c) && (is_fixed_cell(defs, c) || is_infrastructure(c)),
    ensures
        grid_cell(apply_passes(defs, g, passes, empty, empty_dur), x, y) == grid_cell(g, x, y),
{
    let c = grid_cell(g, x, y)->Some_0;
    assert(defs[c as int].cell == c);
    assert(is_fixed_cell(defs, c));
    lemma_passes_keep_fixed_cells(defs, g, passes, empty, empty_dur, x, y);
}

} // verus!
