//! One tick of the granular physics over the world grid: the cells a
//! wake-up or a region seed marks, the analysis of the candidates taken
//! from the frontier, and the application of the canonical moves.
use vstd::prelude::*;
use crate::granular::{
    GranularAnalyzeSummary, GranularChunkKey, analyze_granular_batch, batch_count, batch_intents, batch_verdict,
    chunk_of, group_candidates_by_chunk, in_chunk, is_blocked, is_falling, is_not_granular,
    is_out_of_world, lemma_batch_count_bound, max_coord, min_coord, rect_for_candidates,
    spec_candidate_rect, verdict_intent, canonical_for, canonicalize_granular_intents,
    CandidateVerdict, GranularIntent, GranularScanCache, can_slide, passable_at, granular_at,
    sample_granular, spec_candidate_verdict, spec_down_free, spec_slide_order,
};
use crate::physics_world::{CellDefs, PhysicsWorld, GridView, after_mark_rect, mark_granular_rect,
    activate_neighborhood, apply_granular_intents, granular_apply, sources_in_grid, woken_by, after_wake, granular_in_rect,
    defs_table, grid_cell, infrastructure_not_granular, is_infrastructure, lemma_apply_keeps_infrastructure, sources_granular, grid_granular, grid_passable, grid_sample, in_grid};
use crate::granular::{CellSample, CandidateCell, GranularFrontier};
use crate::sorted::{KeyOrder, sorted_from, strictly_sorted, lemma_strictly_sorted_unique};

verus! {

/// `spec_down_free` read on the grid itself.
pub open spec fn grid_down_free(d: Seq<CellSample>, g: GridView, x: int, y: int) -> u8 {
    if grid_passable(d, g, x, y + 1) {
        if grid_granular(d, g, x, y + 2) {
            if !grid_passable(d, g, x, y + 3) {
                1
            } else {
                2
            }
        } else {
            1
        }
    } else if grid_granular(d, g, x, y + 1) {
        0
    } else {
        2
    }
}

/// `can_slide` read on the grid itself.
pub open spec fn grid_can_slide(d: Seq<CellSample>, g: GridView, is_sand: bool, tx: int, sy: int) -> bool {
    grid_passable(d, g, tx, sy + 1) && (is_sand || grid_passable(d, g, tx, sy))
}

/// What the physics does with the cell `(sx, sy)` of the grid: skipped
/// outside the grid or when not granular; otherwise it falls one row,
/// slides down to the first free side in `spec_slide_order`, or is blocked.
pub open spec fn grid_verdict(d: Seq<CellSample>, g: GridView, sx: int, sy: int) -> CandidateVerdict {
    if !in_grid(g, sx, sy) {
        CandidateVerdict::OutOfWorld
    } else {
        let c = grid_sample(d, g, sx, sy)->Some_0;
        if !sample_granular(c) {
            CandidateVerdict::NotGranular
        } else {
            let df = grid_down_free(d, g, sx, sy);
            let mk = |dx: int|
                GranularIntent {
                    src_x: sx as i32,
                    src_y: sy as i32,
                    dest_x: dx as i32,
                    dest_y: (sy + 1) as i32,
                    cell: c.cell,
                };
            if df == 1 {
                CandidateVerdict::Moves(mk(sx))
            } else if df != 0 {
                CandidateVerdict::Blocked
            } else {
                let (first, second) = spec_slide_order(sx, sy);
                if grid_can_slide(d, g, c.is_sand, first, sy) {
                    CandidateVerdict::Moves(mk(first))
                } else if grid_can_slide(d, g, c.is_sand, second, sy) {
                    CandidateVerdict::Moves(mk(second))
                } else {
                    CandidateVerdict::Blocked
                }
            }
        }
    }
}

/// The snapshot `cache` agrees with the grid on the cells the analysis of
/// `(sx, sy)` reads: the columns `sx-1..=sx+1` of the rows `sy..=sy+3`.
pub open spec fn agrees_near(cache: GranularScanCache, d: Seq<CellSample>, g: GridView, sx: int, sy: int) -> bool {
    forall|x: int, y: int|
        #![trigger cache.cell_at(x, y)]
        sx - 1 <= x <= sx + 1 && sy <= y <= sy + 3 ==> cache.cell_at(x, y) == grid_sample(d, g, x, y)
}

/// Analysing a cell on a snapshot that agrees with the grid around it
/// gives the verdict of the grid itself.
pub proof fn lemma_verdict_agrees(cache: GranularScanCache, d: Seq<CellSample>, g: GridView, sx: int, sy: int)
    requires
        agrees_near(cache, d, g, sx, sy),
    ensures
        spec_candidate_verdict(in_grid(g, sx, sy), cache, sx, sy) == grid_verdict(d, g, sx, sy),
{
    assert(cache.cell_at(sx, sy) == grid_sample(d, g, sx, sy));
    assert(cache.cell_at(sx, sy + 1) == grid_sample(d, g, sx, sy + 1));
    assert(cache.cell_at(sx, sy + 2) == grid_sample(d, g, sx, sy + 2));
    assert(cache.cell_at(sx, sy + 3) == grid_sample(d, g, sx, sy + 3));
    assert(cache.cell_at(sx - 1, sy) == grid_sample(d, g, sx - 1, sy));
    assert(cache.cell_at(sx + 1, sy) == grid_sample(d, g, sx + 1, sy));
    assert(cache.cell_at(sx - 1, sy + 1) == grid_sample(d, g, sx - 1, sy + 1));
    assert(cache.cell_at(sx + 1, sy + 1) == grid_sample(d, g, sx + 1, sy + 1));
    assert(passable_at(cache, sx, sy + 1) == grid_passable(d, g, sx, sy + 1));
    assert(passable_at(cache, sx, sy + 3) == grid_passable(d, g, sx, sy + 3));
    assert(granular_at(cache, sx, sy + 1) == grid_granular(d, g, sx, sy + 1));
    assert(granular_at(cache, sx, sy + 2) == grid_granular(d, g, sx, sy + 2));
    assert(spec_down_free(cache, sx, sy) == grid_down_free(d, g, sx, sy));
    assert forall|is_sand: bool, tx: int| sx - 1 <= tx <= sx + 1 implies can_slide(cache, is_sand, tx, sy)
        == grid_can_slide(d, g, is_sand, tx, sy) by {
        assert(cache.cell_at(tx, sy + 1) == grid_sample(d, g, tx, sy + 1));
        assert(cache.cell_at(tx, sy) == grid_sample(d, g, tx, sy));
    }
}

/// The members of `in_chunk(cands, k)` come from `cands` and lie in chunk `k`.
pub proof fn lemma_in_chunk_members(cands: Seq<(i32, i32)>, k: GranularChunkKey)
    ensures
        forall|m: int| 0 <= m < in_chunk(cands, k).len() ==> chunk_of(#[trigger] in_chunk(cands, k)[m]) == k
            && cands.contains(in_chunk(cands, k)[m]),
        in_chunk(cands, k).len() <= cands.len(),
    decreases cands.len(),
{
    reveal(Seq::filter);
    if cands.len() > 0 {
        let rest = cands.drop_last();
        lemma_in_chunk_members(rest, k);
        assert forall|m: int| 0 <= m < in_chunk(cands, k).len() implies chunk_of(#[trigger] in_chunk(cands, k)[m]) == k
            && cands.contains(in_chunk(cands, k)[m]) by {
            if m < in_chunk(rest, k).len() {
                assert(in_chunk(cands, k)[m] == in_chunk(rest, k)[m]);
                let j = choose|j: int| 0 <= j < rest.len() && rest[j] == in_chunk(rest, k)[m];
                assert(cands[j] == rest[j]);
            } else {
                assert(in_chunk(cands, k)[m] == cands.last());
                assert(cands[cands.len() - 1] == cands.last());
            }
        }
    }
}

/// A candidate of `cands` in chunk `k` is among `in_chunk(cands, k)`.
pub proof fn lemma_in_chunk_contains(cands: Seq<(i32, i32)>, k: GranularChunkKey, c: (i32, i32))
    requires
        cands.contains(c),
        chunk_of(c) == k,
    ensures
        in_chunk(cands, k).contains(c),
    decreases cands.len(),
{
    reveal(Seq::filter);
    let rest = cands.drop_last();
    if cands.last() == c {
        assert(in_chunk(cands, k).last() == c);
    } else {
        let j = choose|j: int| 0 <= j < cands.len() && cands[j] == c;
        assert(rest[j] == c);
        lemma_in_chunk_contains(rest, k, c);
        let m = choose|m: int| 0 <= m < in_chunk(rest, k).len() && in_chunk(rest, k)[m] == c;
        assert(in_chunk(cands, k)[m] == c);
    }
}

/// When every `x` (or `y`) of a non-empty list lies in `[lo, hi]`, so do
/// its least and greatest values, and each entry lies between them.
pub proof fn lemma_coord_bounds(c: Seq<(i32, i32)>, by_y: bool, lo: int, hi: int)
    requires
        c.len() > 0,
        forall|i: int| 0 <= i < c.len() ==> lo <= (if by_y { (#[trigger] c[i]).1 as int } else { c[i].0 as int }) <= hi,
    ensures
        lo <= min_coord(c, by_y) <= hi,
        lo <= max_coord(c, by_y) <= hi,
        forall|i: int| 0 <= i < c.len() ==> min_coord(c, by_y) <= (if by_y { (#[trigger] c[i]).1 as int } else { c[i].0 as int })
            <= max_coord(c, by_y),
    decreases c.len(),
{
    if c.len() > 1 {
        let rest = c.drop_last();
        assert forall|i: int| 0 <= i < rest.len() implies lo <= (if by_y { (#[trigger] rest[i]).1 as int } else { rest[i].0 as int }) <= hi by {
            assert(rest[i] == c[i]);
        }
        lemma_coord_bounds(rest, by_y, lo, hi);
        assert forall|i: int| 0 <= i < c.len() implies min_coord(c, by_y) <= (if by_y { (#[trigger] c[i]).1 as int } else { c[i].0 as int })
            <= max_coord(c, by_y) by {
            if i < c.len() - 1 {
                assert(rest[i] == c[i]);
            }
        }
    }
}

/// A move is among the first `n` planned moves of a batch exactly when one
/// of the first `n` candidates makes it.
pub proof fn lemma_batch_intents_member(cache: GranularScanCache, cands: Seq<(i32, i32)>, w: Seq<bool>, n: int, t: GranularIntent)
    requires
        n >= 0,
    ensures
        batch_intents(cache, cands, w, n).contains(t) <==> exists|k: int|
            0 <= k < n && verdict_intent(#[trigger] batch_verdict(cache, cands, w, k)) == Some(t),
    decreases n,
{
    if n > 0 {
        lemma_batch_intents_member(cache, cands, w, n - 1, t);
        let prev = batch_intents(cache, cands, w, n - 1);
        match verdict_intent(batch_verdict(cache, cands, w, n - 1)) {
            Some(i) => {
                if prev.push(i).contains(t) && !prev.contains(t) {
                    let q = choose|q: int| 0 <= q < prev.push(i).len() && prev.push(i)[q] == t;
                    assert(q == prev.len());
                }
                if prev.contains(t) {
                    let q = choose|q: int| 0 <= q < prev.len() && prev[q] == t;
                    assert(prev.push(i)[q] == t);
                }
                if i == t {
                    assert(prev.push(i)[prev.len() as int] == t);
                }
            },
            None => {},
        }
    }
}

/// The most candidates one analysis takes.
pub const GRANULAR_CANDIDATE_BUDGET: usize = 1024;

/// The candidates lie in the grid, whose rows leave room for the
/// analysis's look-ahead.
pub open spec fn analyzable(g: GridView, cands: Seq<(i32, i32)>) -> bool {
    &&& g.height <= i32::MAX - 3
    &&& forall|i: int| 0 <= i < cands.len() ==> in_grid(g, (#[trigger] cands[i]).0 as int, cands[i].1 as int)
}

/// Analyses the candidate cells chunk by chunk, each chunk against a
/// snapshot of the rectangle around its candidates; the moves planned are
/// exactly those the grid's own verdicts give.
pub(crate) fn analyze_candidates(world: &PhysicsWorld, defs: &CellDefs, candidates: &Vec<(i32, i32)>) -> (r: GranularAnalyzeSummary)
    requires
        world.wf(),
        defs.wf(),
        candidates@.len() <= GRANULAR_CANDIDATE_BUDGET,
        analyzable(world.view(), candidates@),
    ensures
        forall|t: GranularIntent| r.intents@.contains(t) <==> exists|k: int|
            0 <= k < candidates@.len() && grid_verdict(defs.table(), world.view(), (#[trigger] candidates@[k]).0 as int, candidates@[k].1 as int)
                == CandidateVerdict::Moves(t),
{
    let ghost g = world.view();
    let ghost d = defs.table();
    let groups = group_candidates_by_chunk(candidates);
    proof {
        let keys = groups@.map_values(|e: (GranularChunkKey, Vec<(i32, i32)>)| e.0);
        let images = candidates@.map_values(|c: (i32, i32)| chunk_of(c));
        assert(keys.no_duplicates()) by {
            assert forall|a: int, b: int| 0 <= a < keys.len() && 0 <= b < keys.len() && a != b implies keys[a] != keys[b] by {
                if a < b {
                    assert(groups@[a].0 != groups@[b].0);
                } else {
                    assert(groups@[b].0 != groups@[a].0);
                }
            }
        }
        keys.unique_seq_to_set();
        images.lemma_cardinality_of_set();
        assert(keys.to_set().subset_of(images.to_set())) by {
            assert forall|x: GranularChunkKey| keys.to_set().contains(x) implies images.to_set().contains(x) by {
                let a = choose|a: int| 0 <= a < keys.len() && keys[a] == x;
                let mem = groups@[a].1@;
                assert(mem == in_chunk(candidates@, x));
                lemma_in_chunk_members(candidates@, x);
                assert(chunk_of(mem[0]) == x);
                let j = choose|j: int| 0 <= j < candidates@.len() && candidates@[j] == mem[0];
                assert(images[j] == x);
            }
        }
        vstd::set_lib::lemma_len_subset(keys.to_set(), images.to_set());
        assert(groups@.len() <= candidates@.len());
    }
    let mut summary = GranularAnalyzeSummary::empty();
    let mut gi: usize = 0;
    while gi < groups.len()
        invariant
            world.wf(),
            defs.wf(),
            g == world.view(),
            d == defs.table(),
            candidates@.len() <= GRANULAR_CANDIDATE_BUDGET,
            analyzable(g, candidates@),
            groups@.len() <= candidates@.len(),
            forall|i: int| 0 <= i < groups@.len() ==> (#[trigger] groups@[i]).1@ == in_chunk(candidates@, groups@[i].0)
                && groups@[i].1@.len() > 0,
            forall|c: (i32, i32)| candidates@.contains(c) ==> exists|i: int|
                0 <= i < groups@.len() && (#[trigger] groups@[i]).0 == chunk_of(c),
            gi <= groups@.len(),
            summary.batches == gi,
            summary.profile.skipped_oob <= gi * GRANULAR_CANDIDATE_BUDGET,
            summary.profile.skipped_non_granular <= gi * GRANULAR_CANDIDATE_BUDGET,
            summary.profile.blocked <= gi * GRANULAR_CANDIDATE_BUDGET,
            summary.profile.falling_cells <= gi * GRANULAR_CANDIDATE_BUDGET,
            forall|t: GranularIntent| summary.intents@.contains(t) <==> exists|k: int|
                0 <= k < candidates@.len() && chunk_key_before(groups@, gi as int, chunk_of(#[trigger] candidates@[k]))
                    && grid_verdict(d, g, candidates@[k].0 as int, candidates@[k].1 as int) == CandidateVerdict::Moves(t),
        decreases groups@.len() - gi,
    {
        let members = &groups[gi].1;
        let ghost key = groups@[gi as int].0;
        proof {
            lemma_in_chunk_members(candidates@, key);
            assert forall|i: int| 0 <= i < members@.len() implies in_grid(g, (#[trigger] members@[i]).0 as int, members@[i].1 as int)
                && chunk_of(members@[i]) == key by {
                let j = choose|j: int| 0 <= j < candidates@.len() && candidates@[j] == members@[i];
            }
            lemma_coord_bounds(members@, false, 32 * key.x, 32 * key.x + 31);
            lemma_coord_bounds(members@, true, 32 * key.y, 32 * key.y + 31);
            world.lemma_wf();
        }
        let rect = rect_for_candidates(members.as_slice());
        proof {
            assert(rect.width <= 34 && rect.height <= 35);
            assert(rect.width * rect.height <= 34 * 35) by (nonlinear_arith)
                requires
                    rect.width <= 34,
                    rect.height <= 35,
            ;
        }
        let snapshot = world.snapshot_rect(defs, rect.min_x, rect.min_y, rect.width, rect.height);
        let mut in_world: Vec<bool> = Vec::new();
        let mut k: usize = 0;
        while k < members.len()
            invariant
                world.wf(),
                g == world.view(),
                k <= members@.len(),
                in_world@.len() == k,
                forall|q: int| 0 <= q < k ==> #[trigger] in_world@[q] == in_grid(g, members@[q].0 as int, members@[q].1 as int),
            decreases members@.len() - k,
        {
            let (x, y) = members[k];
            in_world.push(0 <= x && x < world.width() && 0 <= y && y < world.height());
            k = k + 1;
        }
        let ghost (rx, ry, rw, rh) = spec_candidate_rect(members@);
        proof {
            assert forall|q: int| 0 <= q < members@.len() implies agrees_near(snapshot, d, g, (#[trigger] members@[q]).0 as int, members@[q].1 as int) by {
                let (sx, sy) = (members@[q].0 as int, members@[q].1 as int);
                assert forall|x: int, y: int| #![trigger snapshot.cell_at(x, y)]
                    sx - 1 <= x <= sx + 1 && sy <= y <= sy + 3 implies snapshot.cell_at(x, y) == grid_sample(d, g, x, y) by {
                }
            }
        }
        let batch = analyze_granular_batch(&snapshot, members, &in_world);
        proof {
            let n = members@.len() as int;
            lemma_batch_count_bound(snapshot, members@, in_world@, n, |v| is_out_of_world(v));
            lemma_batch_count_bound(snapshot, members@, in_world@, n, |v| is_not_granular(v));
            lemma_batch_count_bound(snapshot, members@, in_world@, n, |v| is_blocked(v));
            lemma_batch_count_bound(snapshot, members@, in_world@, n, |v| is_falling(v));
            assert((gi + 1) * GRANULAR_CANDIDATE_BUDGET <= usize::MAX) by (nonlinear_arith)
                requires
                    gi < 1024,
            ;
        }
        let ghost before = summary.intents@;
        summary.absorb(batch);
        proof {
            let n = members@.len() as int;
            assert forall|q: int| 0 <= q < n implies #[trigger] batch_verdict(snapshot, members@, in_world@, q)
                == grid_verdict(d, g, members@[q].0 as int, members@[q].1 as int) by {
                lemma_verdict_agrees(snapshot, d, g, members@[q].0 as int, members@[q].1 as int);
            }
            assert forall|t: GranularIntent| summary.intents@.contains(t) <==> exists|k: int|
                0 <= k < candidates@.len() && chunk_key_before(groups@, gi + 1, chunk_of(#[trigger] candidates@[k]))
                    && grid_verdict(d, g, candidates@[k].0 as int, candidates@[k].1 as int) == CandidateVerdict::Moves(t) by {
                lemma_batch_intents_member(snapshot, members@, in_world@, n, t);
                assert(summary.intents@ == before + batch.intents@);
                if summary.intents@.contains(t) {
                    let z = choose|z: int| 0 <= z < summary.intents@.len() && summary.intents@[z] == t;
                    if z < before.len() {
                        assert(before[z] == t);
                        assert(before.contains(t));
                        let k = choose|k: int| 0 <= k < candidates@.len() && chunk_key_before(groups@, gi as int, chunk_of(#[trigger] candidates@[k]))
                            && grid_verdict(d, g, candidates@[k].0 as int, candidates@[k].1 as int) == CandidateVerdict::Moves(t);
                        let i = choose|i: int| 0 <= i < gi && i < groups@.len() && (#[trigger] groups@[i]).0 == chunk_of(candidates@[k]);
                        assert(chunk_key_before(groups@, gi + 1, chunk_of(candidates@[k])));
                    } else {
                        assert(batch.intents@[z - before.len()] == t);
                        assert(batch.intents@.contains(t));
                        let q = choose|q: int| 0 <= q < n && verdict_intent(#[trigger] batch_verdict(snapshot, members@, in_world@, q)) == Some(t);
                        assert(batch_verdict(snapshot, members@, in_world@, q) == grid_verdict(d, g, members@[q].0 as int, members@[q].1 as int));
                        let k = choose|k: int| 0 <= k < candidates@.len() && candidates@[k] == members@[q];
                        assert(chunk_of(candidates@[k]) == key);
                        assert(groups@[gi as int].0 == key);
                        assert(chunk_key_before(groups@, gi + 1, chunk_of(candidates@[k])));
                    }
                }
                if exists|k: int| 0 <= k < candidates@.len() && chunk_key_before(groups@, gi + 1, chunk_of(#[trigger] candidates@[k]))
                    && grid_verdict(d, g, candidates@[k].0 as int, candidates@[k].1 as int) == CandidateVerdict::Moves(t) {
                    let k = choose|k: int| 0 <= k < candidates@.len() && chunk_key_before(groups@, gi + 1, chunk_of(#[trigger] candidates@[k]))
                        && grid_verdict(d, g, candidates@[k].0 as int, candidates@[k].1 as int) == CandidateVerdict::Moves(t);
                    let i = choose|i: int| 0 <= i < gi + 1 && i < groups@.len() && (#[trigger] groups@[i]).0 == chunk_of(candidates@[k]);
                    if i < gi {
                        assert(chunk_key_before(groups@, gi as int, chunk_of(candidates@[k])));
                        assert(before.contains(t));
                        let z = choose|z: int| 0 <= z < before.len() && before[z] == t;
                        assert(summary.intents@[z] == t);
                    } else {
                        assert(candidates@.contains(candidates@[k]));
                        lemma_in_chunk_contains(candidates@, key, candidates@[k]);
                        let q = choose|q: int| 0 <= q < members@.len() && members@[q] == candidates@[k];
                        assert(batch_verdict(snapshot, members@, in_world@, q) == grid_verdict(d, g, members@[q].0 as int, members@[q].1 as int));
                        assert(verdict_intent(batch_verdict(snapshot, members@, in_world@, q)) == Some(t));
                        assert(batch.intents@.contains(t));
                        let z = choose|z: int| 0 <= z < batch.intents@.len() && batch.intents@[z] == t;
                        assert(summary.intents@[before.len() + z] == t);
                    }
                }
            }
        }
        gi = gi + 1;
    }
    proof {
        assert forall|t: GranularIntent| summary.intents@.contains(t) <==> exists|k: int|
            0 <= k < candidates@.len() && grid_verdict(d, g, (#[trigger] candidates@[k]).0 as int, candidates@[k].1 as int)
                == CandidateVerdict::Moves(t) by {
            if exists|k: int| 0 <= k < candidates@.len() && grid_verdict(d, g, (#[trigger] candidates@[k]).0 as int, candidates@[k].1 as int)
                == CandidateVerdict::Moves(t) {
                let k = choose|k: int| 0 <= k < candidates@.len() && grid_verdict(d, g, (#[trigger] candidates@[k]).0 as int, candidates@[k].1 as int)
                    == CandidateVerdict::Moves(t);
                assert(candidates@.contains(candidates@[k]));
                let i = choose|i: int| 0 <= i < groups@.len() && (#[trigger] groups@[i]).0 == chunk_of(candidates@[k]);
                assert(chunk_key_before(groups@, gi as int, chunk_of(candidates@[k])));
            }
        }
    }
    summary
}

/// `k` is the key of one of the first `n` groups.
pub open spec fn chunk_key_before(groups: Seq<(GranularChunkKey, Vec<(i32, i32)>)>, n: int, k: GranularChunkKey) -> bool {
    exists|i: int| 0 <= i < n && i < groups.len() && (#[trigger] groups[i]).0 == k
}

/// A cell queued for waking, ordered by row and then column.
#[derive(Clone, Copy, Debug, PartialEq, Eq, Structural)]
pub struct WakePoint {
    pub x: i32,
    pub y: i32,
}

impl KeyOrder for WakePoint {
    open spec fn key_le(self, other: Self) -> bool {
        self.y < other.y || (self.y == other.y && self.x <= other.x)
    }

    fn key_le_exec(&self, other: &Self) -> (r: bool) {
        self.y < other.y || (self.y == other.y && self.x <= other.x)
    }

    proof fn lemma_key_le_total(a: Self, b: Self) {
    }

    proof fn lemma_key_le_trans(a: Self, b: Self, c: Self) {
    }

    proof fn lemma_key_le_antisym(a: Self, b: Self) {
    }
}

/// No point is listed twice.
pub open spec fn distinct_points(s: Seq<WakePoint>) -> bool {
    forall|i: int, j: int| 0 <= i < j < s.len() ==> #[trigger] s[i] != #[trigger] s[j]
}

/// Adds `p` to a duplicate-free list unless it is there.
fn insert_point(v: &mut Vec<WakePoint>, p: WakePoint)
    requires
        distinct_points(old(v)@),
    ensures
        distinct_points(final(v)@),
        final(v)@.to_set() == old(v)@.to_set().insert(p),
{
    let mut i: usize = 0;
    while i < v.len()
        invariant
            v@ == old(v)@,
            distinct_points(v@),
            i <= v@.len(),
            forall|j: int| 0 <= j < i ==> v@[j] != p,
        decreases v@.len() - i,
    {
        if v[i].x == p.x && v[i].y == p.y {
            proof {
                assert(v@.to_set() =~= v@.to_set().insert(p));
            }
            return;
        }
        i = i + 1;
    }
    let ghost before = v@;
    v.push(p);
    proof {
        assert forall|a: int, b: int| 0 <= a < b < v@.len() implies #[trigger] v@[a] != #[trigger] v@[b] by {
            assert(v@[a] == before[a]);
            if b < before.len() {
                assert(v@[b] == before[b]);
            }
        }
        assert(v@.to_set() =~= before.to_set().insert(p)) by {
            assert forall|e: WakePoint| v@.to_set().contains(e) <==> before.to_set().insert(p).contains(e) by {
                if v@.contains(e) {
                    let k = choose|k: int| 0 <= k < v@.len() && v@[k] == e;
                    if k < before.len() {
                        assert(before[k] == e);
                    }
                }
                if before.contains(e) {
                    let k = choose|k: int| 0 <= k < before.len() && before[k] == e;
                    assert(v@[k] == e);
                }
                if e == p {
                    assert(v@[before.len() as int] == p);
                }
            }
        }
    }
}

/// The wake-ups and region seeds queued for the granular physics, and
/// whether the physics still has active cells.
pub struct GranularWakeQueue {
    points: Vec<WakePoint>,
    seeds: Vec<WakePoint>,
    active: bool,
}

/// The points a change at `(x, y)` queues: columns `x-1..=x+1` of rows `y-3..=y+1`.
pub open spec fn wake_points_of(x: int, y: int) -> Set<WakePoint> {
    Set::new(|p: WakePoint| x - 1 <= p.x <= x + 1 && y - 3 <= p.y <= y + 1)
}

impl GranularWakeQueue {
    pub closed spec fn point_set(&self) -> Set<WakePoint> {
        self.points@.to_set()
    }

    pub closed spec fn seed_set(&self) -> Set<WakePoint> {
        self.seeds@.to_set()
    }

    pub closed spec fn is_active(&self) -> bool {
        self.active
    }

    pub closed spec fn wf(&self) -> bool {
        distinct_points(self.points@) && distinct_points(self.seeds@)
    }

    pub fn new() -> (r: Self)
        ensures
            r.wf(),
            r.point_set() == Set::<WakePoint>::empty(),
            r.seed_set() == Set::<WakePoint>::empty(),
            !r.is_active(),
    {
        let r = GranularWakeQueue { points: Vec::new(), seeds: Vec::new(), active: false };
        proof {
            assert(r.points@.to_set() =~= Set::<WakePoint>::empty());
            assert(r.seeds@.to_set() =~= Set::<WakePoint>::empty());
        }
        r
    }

    /// Queues the cells around a change at `(x, y)` for waking.
    pub fn wake_neighborhood(&mut self, x: i32, y: i32)
        requires
            old(self).wf(),
            i32::MIN + 1 <= x <= i32::MAX - 1,
            i32::MIN + 3 <= y <= i32::MAX - 1,
        ensures
            final(self).wf(),
            final(self).point_set() == old(self).point_set().union(wake_points_of(x as int, y as int)),
            final(self).seed_set() == old(self).seed_set(),
            final(self).is_active() == old(self).is_active(),
    {
        let ghost start = self.points@.to_set();
        let mut dy: i32 = -3;
        while dy <= 1
            invariant
                -3 <= dy <= 2,
                i32::MIN + 1 <= x <= i32::MAX - 1,
                i32::MIN + 3 <= y <= i32::MAX - 1,
                distinct_points(self.points@),
                distinct_points(self.seeds@),
                self.seeds@ == old(self).seeds@,
                self.active == old(self).active,
                self.points@.to_set() == start.union(Set::new(|p: WakePoint| x - 1 <= p.x <= x + 1 && y - 3 <= p.y < y + dy)),
            decreases 2 - dy,
        {
            let mut dx: i32 = -1;
            while dx <= 1
                invariant
                    -3 <= dy <= 1,
                    -1 <= dx <= 2,
                    i32::MIN + 1 <= x <= i32::MAX - 1,
                    i32::MIN + 3 <= y <= i32::MAX - 1,
                    distinct_points(self.points@),
                    distinct_points(self.seeds@),
                    self.seeds@ == old(self).seeds@,
                    self.active == old(self).active,
                    self.points@.to_set() == start.union(Set::new(|p: WakePoint| x - 1 <= p.x <= x + 1
                        && (y - 3 <= p.y < y + dy || (p.y == y + dy && p.x < x + dx)))),
                decreases 2 - dx,
            {
                let ghost pre = self.points@.to_set();
                insert_point(&mut self.points, WakePoint { x: x + dx, y: y + dy });
                proof {
                    assert(self.points@.to_set() =~= start.union(Set::new(|p: WakePoint| x - 1 <= p.x <= x + 1
                        && (y - 3 <= p.y < y + dy || (p.y == y + dy && p.x < x + dx + 1)))));
                }
                dx = dx + 1;
            }
            proof {
                assert(self.points@.to_set() =~= start.union(Set::new(|p: WakePoint| x - 1 <= p.x <= x + 1 && y - 3 <= p.y < y + dy + 1)));
            }
            dy = dy + 1;
        }
        proof {
            assert(self.points@.to_set() =~= start.union(wake_points_of(x as int, y as int)));
        }
    }

    /// Queues a region scan around `(x, y)`.
    pub fn seed_region(&mut self, x: i32, y: i32)
        requires
            old(self).wf(),
        ensures
            final(self).wf(),
            final(self).seed_set() == old(self).seed_set().insert(WakePoint { x, y }),
            final(self).point_set() == old(self).point_set(),
            final(self).is_active() == old(self).is_active(),
    {
        insert_point(&mut self.seeds, WakePoint { x, y });
    }

    /// Takes everything queued: the wake points and the region seeds, each
    /// listed once; the queue is left empty.
    pub fn take(&mut self) -> (r: (Vec<WakePoint>, Vec<WakePoint>))
        requires
            old(self).wf(),
        ensures
            final(self).wf(),
            distinct_points(r.0@),
            distinct_points(r.1@),
            r.0@.to_set() == old(self).point_set(),
            r.1@.to_set() == old(self).seed_set(),
            final(self).point_set() == Set::<WakePoint>::empty(),
            final(self).seed_set() == Set::<WakePoint>::empty(),
            final(self).is_active() == old(self).is_active(),
    {
        let mut points: Vec<WakePoint> = Vec::new();
        std::mem::swap(&mut points, &mut self.points);
        let mut seeds: Vec<WakePoint> = Vec::new();
        std::mem::swap(&mut seeds, &mut self.seeds);
        proof {
            assert(self.points@.to_set() =~= Set::<WakePoint>::empty());
            assert(self.seeds@.to_set() =~= Set::<WakePoint>::empty());
        }
        (points, seeds)
    }

    pub fn set_active(&mut self, active: bool)
        ensures
            final(self).is_active() == active,
            final(self).point_set() == old(self).point_set(),
            final(self).seed_set() == old(self).seed_set(),
            old(self).wf() ==> final(self).wf(),
    {
        self.active = active;
    }

    /// The physics has cells left, or something is queued.
    pub fn has_work(&self) -> (r: bool)
        ensures
            r == (self.is_active() || self.point_set() != Set::<WakePoint>::empty()
                || self.seed_set() != Set::<WakePoint>::empty()),
    {
        proof {
            if self.points@.len() > 0 {
                assert(self.points@.to_set().contains(self.points@[0]));
            } else {
                assert(self.points@.to_set() =~= Set::<WakePoint>::empty());
            }
            if self.seeds@.len() > 0 {
                assert(self.seeds@.to_set().contains(self.seeds@[0]));
            } else {
                assert(self.seeds@.to_set() =~= Set::<WakePoint>::empty());
            }
        }
        self.active || self.points.len() > 0 || self.seeds.len() > 0
    }
}

/// Milliseconds before the region around a player may be scanned again.
pub const GRANULAR_REGION_RESEED_MS: u64 = 5000;

/// The time of the last scan of region `k` among `entries`.
pub open spec fn seed_time(entries: Seq<(GranularChunkKey, u64)>, k: GranularChunkKey) -> Option<u64>
    decreases entries.len(),
{
    if entries.len() == 0 {
        None
    } else if entries.last().0 == k {
        Some(entries.last().1)
    } else {
        seed_time(entries.drop_last(), k)
    }
}

/// A region last scanned at `prev` is scanned again at `now` when it was
/// never scanned or at least the reseed interval has passed (a clock that
/// went back counts as no time passed).
pub open spec fn reseed_due(prev: Option<u64>, now: u64) -> bool {
    match prev {
        Some(t) => !((if now >= t { now - t } else { 0 }) < GRANULAR_REGION_RESEED_MS),
        None => true,
    }
}

/// When each region around a player was last scanned.
pub struct RegionSeeds {
    entries: Vec<(GranularChunkKey, u64)>,
}

impl RegionSeeds {
    /// The time of the last scan of region `k`.
    pub closed spec fn seeded_at(&self, k: GranularChunkKey) -> Option<u64> {
        seed_time(self.entries@, k)
    }

    pub fn new() -> (r: Self)
        ensures
            forall|k: GranularChunkKey| r.seeded_at(k) is None,
    {
        RegionSeeds { entries: Vec::new() }
    }

    /// Records a scan of region `key` at `now` when one is due; reports
    /// whether it was.
    pub fn try_seed(&mut self, key: GranularChunkKey, now: u64) -> (r: bool)
        ensures
            r == reseed_due(old(self).seeded_at(key), now),
            forall|k: GranularChunkKey| #[trigger] final(self).seeded_at(k) == if k == key && r {
                Some(now)
            } else {
                old(self).seeded_at(k)
            },
    {
        let mut i = self.entries.len();
        let mut prev: Option<u64> = None;
        proof {
            assert(self.entries@.take(i as int) == self.entries@);
        }
        while i > 0 && prev.is_none()
            invariant
                self.entries@ == old(self).entries@,
                i <= self.entries@.len(),
                prev is None ==> seed_time(self.entries@, key) == seed_time(self.entries@.take(i as int), key),
                prev is Some ==> prev == seed_time(self.entries@, key),
            decreases i,
        {
            let e = self.entries[i - 1];
            proof {
                assert(self.entries@.take(i as int).drop_last() == self.entries@.take(i - 1));
                assert(self.entries@.take(i as int).last() == e);
            }
            if e.0.x == key.x && e.0.y == key.y {
                prev = Some(e.1);
            }
            i = i - 1;
        }
        proof {
            if prev is None {
                assert(self.entries@.take(0) =~= Seq::<(GranularChunkKey, u64)>::empty());
            }
        }
        let due = match prev {
            Some(t) => {
                let elapsed = if now >= t { now - t } else { 0 };
                !(elapsed < GRANULAR_REGION_RESEED_MS)
            },
            None => true,
        };
        if due {
            let ghost before = self.entries@;
            self.entries.push((key, now));
            proof {
                assert(self.entries@.drop_last() == before);
            }
        }
        due
    }
}

/// Cells a region scan covers on each side of the player.
pub const GRANULAR_SCAN_RADIUS: i32 = 16;

/// Scans the region around the player at `(px, py)` when its chunk region
/// is due (see `reseed_due`): every sand or boulder cell within 16 cells in
/// both directions is marked for rescanning. Returns how many cells the scan
/// covered (33 × 33, or 0 when it was not due) and whether it ran.
pub fn seed_active_region(
    frontier: &mut GranularFrontier,
    world: &PhysicsWorld,
    defs: &CellDefs,
    seeds: &mut RegionSeeds,
    px: i32,
    py: i32,
    now: u64,
) -> (r: (usize, bool))
    requires
        old(frontier).wf(),
        world.wf(),
        defs.wf(),
    ensures
        final(frontier).wf(),
        r.1 == reseed_due(old(seeds).seeded_at(chunk_of((px, py))), now),
        forall|k: GranularChunkKey| #[trigger] final(seeds).seeded_at(k) == if k == chunk_of((px, py)) && r.1 {
            Some(now)
        } else {
            old(seeds).seeded_at(k)
        },
        r.1 ==> r.0 == 33 * 33 && final(frontier).cells().to_set() == after_mark_rect(
            defs.table(),
            world.view(),
            old(frontier).cells().to_set(),
            px - GRANULAR_SCAN_RADIUS,
            px + GRANULAR_SCAN_RADIUS,
            py - GRANULAR_SCAN_RADIUS,
            py + GRANULAR_SCAN_RADIUS,
        ),
        !r.1 ==> r.0 == 0 && final(frontier).cells() == old(frontier).cells(),
{
    let key = GranularChunkKey::for_cell(px, py);
    if !seeds.try_seed(key, now) {
        return (0, false);
    }
    let ghost s0 = frontier.cells().to_set();
    let x0: i64 = if (px as i64) - 16 < i32::MIN as i64 { i32::MIN as i64 } else { px as i64 - 16 };
    let x1: i64 = if (px as i64) + 16 > i32::MAX as i64 { i32::MAX as i64 } else { px as i64 + 16 };
    let y0: i64 = if (py as i64) - 16 < i32::MIN as i64 { i32::MIN as i64 } else { py as i64 - 16 };
    let y1: i64 = if (py as i64) + 16 > i32::MAX as i64 { i32::MAX as i64 } else { py as i64 + 16 };
    mark_granular_rect(frontier, world, defs, x0, x1, y0, y1);
    proof {
        assert(frontier.cells().to_set() =~= after_mark_rect(
            defs.table(),
            world.view(),
            s0,
            px - GRANULAR_SCAN_RADIUS,
            px + GRANULAR_SCAN_RADIUS,
            py - GRANULAR_SCAN_RADIUS,
            py + GRANULAR_SCAN_RADIUS,
        ));
    }
    (33 * 33, true)
}

/// All cells of `s` lie in the grid.
pub open spec fn cells_in_grid(g: GridView, s: Set<CandidateCell>) -> bool {
    forall|c: CandidateCell| s.contains(c) ==> in_grid(g, c.x as int, c.y as int)
}

/// The frontier after the queued wake points: every point wakes the cells
/// around it.
pub open spec fn after_wake_points(d: Seq<CellSample>, g: GridView, f: Set<CandidateCell>, pts: Set<WakePoint>) -> Set<CandidateCell> {
    f.union(Set::new(|c: CandidateCell| exists|p: WakePoint| pts.contains(p) && #[trigger] woken_by(d, g, p.x as int, p.y as int, c)))
}

/// The frontier and the region scan times after the region seeds `seeds`,
/// taken in order: a seed whose chunk region is due marks the granular
/// cells within 16 cells of it and records the time.
pub struct SeedState {
    pub frontier: Set<CandidateCell>,
    pub times: spec_fn(GranularChunkKey) -> Option<u64>,
}

pub open spec fn seed_fold(
    d: Seq<CellSample>,
    g: GridView,
    f: Set<CandidateCell>,
    times: spec_fn(GranularChunkKey) -> Option<u64>,
    seeds: Seq<WakePoint>,
    now: u64,
) -> SeedState
    decreases seeds.len(),
{
    if seeds.len() == 0 {
        SeedState { frontier: f, times }
    } else {
        let prev = seed_fold(d, g, f, times, seeds.drop_last(), now);
        let p = seeds.last();
        let k = chunk_of((p.x, p.y));
        if reseed_due((prev.times)(k), now) {
            SeedState {
                frontier: after_mark_rect(d, g, prev.frontier, p.x - GRANULAR_SCAN_RADIUS, p.x + GRANULAR_SCAN_RADIUS,
                    p.y - GRANULAR_SCAN_RADIUS, p.y + GRANULAR_SCAN_RADIUS),
                times: |k2: GranularChunkKey| if k2 == k { Some(now) } else { (prev.times)(k2) },
            }
        } else {
            prev
        }
    }
}

/// The region seeds in row order (the order the tick scans them in).
pub open spec fn row_order(s: Set<WakePoint>) -> Seq<WakePoint> {
    choose|q: Seq<WakePoint>| strictly_sorted(q) && q.to_set() == s
}

/// What one tick of the granular physics did.
pub struct GranularTickResult {
    /// The cells analysed, bottom rows first.
    pub candidates: Vec<CandidateCell>,
    /// Active cells left for later ticks.
    pub deferred: usize,
    /// The moves applied, in canonical order.
    pub moves: Vec<GranularIntent>,
    pub applied: usize,
    pub granular_activated: usize,
    pub effects: Vec<(i32, i32)>,
}

/// The moves that the analysis of `cands` plans on grid `g`.
pub open spec fn planned_moves(d: Seq<CellSample>, g: GridView, cands: Seq<CandidateCell>, t: GranularIntent) -> bool {
    exists|k: int| 0 <= k < cands.len() && grid_verdict(d, g, (#[trigger] cands[k]).x as int, cands[k].y as int) == CandidateVerdict::Moves(t)
}

/// One tick of the granular physics: the queued wake points wake the cells
/// around them; the queued region seeds, in row order, scan their regions
/// when due; up to 1024 active cells are taken, bottom rows first; their
/// moves are planned on the grid as it stands, put in canonical order and
/// applied, waking the cells around every source and destination; the
/// queue is left empty and marked active while cells remain.
pub fn granular_physics_tick(
    world: &mut PhysicsWorld,
    defs: &CellDefs,
    frontier: &mut GranularFrontier,
    wake: &mut GranularWakeQueue,
    seeds: &mut RegionSeeds,
    now: u64,
    empty: u8,
    empty_dur: u32,
) -> (r: GranularTickResult)
    requires
        old(world).wf(),
        defs.wf(),
        old(frontier).wf(),
        old(wake).wf(),
        old(world).view().height <= i32::MAX - 3,
        cells_in_grid(old(world).view(), old(frontier).cells().to_set()),
    ensures
        final(world).wf(),
        final(frontier).wf(),
        final(wake).wf(),
        ({
            let d = defs.table();
            let g = old(world).view();
            let woken = after_wake_points(d, g, old(frontier).cells().to_set(), old(wake).point_set());
            let seeded = seed_fold(d, g, woken, |k: GranularChunkKey| old(seeds).seeded_at(k), row_order(old(wake).seed_set()), now);
            let rest = seeded.frontier.difference(r.candidates@.to_set());
            let out = granular_apply(d, g, rest, r.moves@, empty, empty_dur);
            &&& forall|k: GranularChunkKey| #[trigger] final(seeds).seeded_at(k) == (seeded.times)(k)
            &&& strictly_sorted(r.candidates@)
            &&& r.candidates@.len() == if seeded.frontier.len() <= GRANULAR_CANDIDATE_BUDGET {
                seeded.frontier.len() as int
            } else {
                GRANULAR_CANDIDATE_BUDGET as int
            }
            &&& forall|c: CandidateCell| r.candidates@.contains(c) ==> seeded.frontier.contains(c)
            &&& forall|a: CandidateCell, b: CandidateCell| r.candidates@.contains(a) && rest.contains(b) ==> a.key_le(b)
            &&& r.deferred == rest.len()
            &&& exists|planned: Seq<GranularIntent>| #![trigger canonical_for(r.moves@, planned)]
                canonical_for(r.moves@, planned) && forall|t: GranularIntent| planned.contains(t) <==> planned_moves(d, g, r.candidates@, t)
            &&& final(world).view() == out.grid
            &&& final(frontier).cells().to_set() == out.frontier
            &&& r.applied == out.applied
            &&& r.effects@ == out.effects
            &&& r.granular_activated == final(frontier).cells().len() - rest.len()
        }),
        cells_in_grid(final(world).view(), final(frontier).cells().to_set()),
        final(wake).point_set() == Set::<WakePoint>::empty(),
        final(wake).seed_set() == Set::<WakePoint>::empty(),
        final(wake).is_active() == (final(frontier).cells().len() > 0),
{
    let ghost d = defs.table();
    let ghost g = world.view();
    let ghost f0 = frontier.cells().to_set();
    let ghost pts0 = wake.point_set();
    let ghost seeds0 = wake.seed_set();
    let ghost times0 = |k: GranularChunkKey| seeds.seeded_at(k);
    proof {
        world.lemma_wf();
    }
    let (points, region_seeds) = wake.take();
    let mut i: usize = 0;
    while i < points.len()
        invariant
            world.wf(),
            defs.wf(),
            d == defs.table(),
            g == world.view(),
            frontier.wf(),
            i <= points@.len(),
            frontier.cells().to_set() == after_wake_points(d, g, f0, points@.take(i as int).to_set()),
        decreases points@.len() - i,
    {
        let p = points[i];
        let ghost pre = frontier.cells().to_set();
        activate_neighborhood(frontier, world, defs, p.x, p.y);
        proof {
            assert(points@.take(i as int + 1).to_set() =~= points@.take(i as int).to_set().insert(p)) by {
                let a = points@.take(i as int);
                let b = points@.take(i as int + 1);
                assert(b == a.push(p));
                assert forall|e: WakePoint| b.to_set().contains(e) <==> a.to_set().insert(p).contains(e) by {
                    if b.contains(e) {
                        let z = choose|z: int| 0 <= z < b.len() && b[z] == e;
                        if z < a.len() {
                            assert(a[z] == e);
                        }
                    }
                    if a.contains(e) {
                        let z = choose|z: int| 0 <= z < a.len() && a[z] == e;
                        assert(b[z] == e);
                    }
                    if e == p {
                        assert(b[a.len() as int] == p);
                    }
                }
            }
            assert(frontier.cells().to_set() =~= after_wake_points(d, g, f0, points@.take(i as int + 1).to_set()));
        }
        i = i + 1;
    }
    proof {
        assert(points@.take(points@.len() as int) == points@);
    }
    let ghost woken = frontier.cells().to_set();
    let q = sorted_from(&region_seeds);
    let ghost order = q.entries();
    proof {
        assert(strictly_sorted(order)) by {
            assert forall|a: int, b: int| 0 <= a < b < order.len() implies #[trigger] order[a] != #[trigger] order[b] by {
                order.lemma_cardinality_of_set();
                region_seeds@.unique_seq_to_set();
                assert(order.to_set() =~= region_seeds@.to_set());
                if order[a] == order[b] {
                    assert(order.to_set() =~= order.remove(b).to_set()) by {
                        assert forall|e: WakePoint| order.to_set().contains(e) implies order.remove(b).to_set().contains(e) by {
                            let k = choose|k: int| 0 <= k < order.len() && order[k] == e;
                            if k == b {
                                assert(order.remove(b)[a] == e);
                            } else if k < b {
                                assert(order.remove(b)[k] == e);
                            } else {
                                assert(order.remove(b)[k - 1] == e);
                            }
                        }
                        assert forall|e: WakePoint| order.remove(b).to_set().contains(e) implies order.to_set().contains(e) by {
                            let k = choose|k: int| 0 <= k < order.remove(b).len() && order.remove(b)[k] == e;
                            if k < b {
                                assert(order[k] == e);
                            } else {
                                assert(order[k + 1] == e);
                            }
                        }
                    }
                    order.remove(b).lemma_cardinality_of_set();
                }
            }
        }
        assert(order.to_set() =~= seeds0);
        assert(row_order(seeds0) == order) by {
            let ro = row_order(seeds0);
            assert(strictly_sorted(ro) && ro.to_set() == seeds0);
            assert forall|x: WakePoint| ro.contains(x) <==> order.contains(x) by {
                assert(ro.to_set().contains(x) == ro.contains(x));
                assert(order.to_set().contains(x) == order.contains(x));
            }
            lemma_strictly_sorted_unique(ro, order);
        }
    }
    let mut j: usize = 0;
    let n = q.len();
    while j < n
        invariant
            world.wf(),
            defs.wf(),
            d == defs.table(),
            g == world.view(),
            frontier.wf(),
            n == order.len(),
            order == q.entries(),
            j <= n,
            frontier.cells().to_set() == seed_fold(d, g, woken, times0, order.take(j as int), now).frontier,
            forall|k: GranularChunkKey| #[trigger] seeds.seeded_at(k) == (seed_fold(d, g, woken, times0, order.take(j as int), now).times)(k),
        decreases n - j,
    {
        let p = q.entries_at(j);
        proof {
            assert(order.take(j as int + 1).drop_last() == order.take(j as int));
            assert(order.take(j as int + 1).last() == p);
        }
        seed_active_region(frontier, world, defs, seeds, p.x, p.y, now);
        j = j + 1;
    }
    proof {
        assert(order.take(n as int) == order);
    }
    let ghost seeded = frontier.cells().to_set();
    let ghost before_take = frontier.cells();
    proof {
        lemma_after_wake_points_in_grid(d, g, f0, pts0);
        lemma_seed_fold_in_grid(d, g, woken, times0, order, now);
        frontier.lemma_no_duplicates();
    }
    let (cands, deferred) = frontier.take_candidates(GRANULAR_CANDIDATE_BUDGET);
    let ghost rest = frontier.cells().to_set();
    proof {
        frontier.lemma_no_duplicates();
        assert(rest =~= seeded.difference(cands@.to_set())) by {
            assert forall|c: CandidateCell| rest.contains(c) <==> seeded.difference(cands@.to_set()).contains(c) by {
                assert(before_take.to_set().contains(c) == before_take.contains(c));
                assert(cands@.to_set().contains(c) == cands@.contains(c));
                assert(frontier.cells().to_set().contains(c) == frontier.cells().contains(c));
            }
        }
    }
    let mut pairs: Vec<(i32, i32)> = Vec::new();
    let mut k: usize = 0;
    while k < cands.len()
        invariant
            k <= cands@.len(),
            pairs@.len() == k,
            forall|m: int| 0 <= m < k ==> #[trigger] pairs@[m] == (cands@[m].x, cands@[m].y),
        decreases cands@.len() - k,
    {
        pairs.push((cands[k].x, cands[k].y));
        k = k + 1;
    }
    proof {
        assert forall|m: int| 0 <= m < pairs@.len() implies in_grid(g, (#[trigger] pairs@[m]).0 as int, pairs@[m].1 as int) by {
            assert(cands@.contains(cands@[m]));
            assert(before_take.contains(cands@[m]));
            assert(seeded.contains(cands@[m]));
        }
    }
    let mut summary = analyze_candidates(world, defs, &pairs);
    let ghost planned = summary.intents@;
    canonicalize_granular_intents(&mut summary.intents);
    proof {
        assert forall|t: GranularIntent| planned.contains(t) <==> planned_moves(d, g, cands@, t) by {
            if planned.contains(t) {
                let m = choose|m: int| 0 <= m < pairs@.len() && grid_verdict(d, g, (#[trigger] pairs@[m]).0 as int, pairs@[m].1 as int) == CandidateVerdict::Moves(t);
                assert(pairs@[m] == (cands@[m].x, cands@[m].y));
            }
            if planned_moves(d, g, cands@, t) {
                let m = choose|m: int| 0 <= m < cands@.len() && grid_verdict(d, g, (#[trigger] cands@[m]).x as int, cands@[m].y as int) == CandidateVerdict::Moves(t);
                assert(pairs@[m] == (cands@[m].x, cands@[m].y));
            }
        }
        assert forall|i: int| 0 <= i < summary.intents@.len() implies in_grid(g, (#[trigger] summary.intents@[i]).src_x as int, summary.intents@[i].src_y as int) by {
            let t = summary.intents@[i];
            assert(planned.contains(t));
            let m = choose|m: int| 0 <= m < pairs@.len() && grid_verdict(d, g, (#[trigger] pairs@[m]).0 as int, pairs@[m].1 as int) == CandidateVerdict::Moves(t);
            assert(in_grid(g, pairs@[m].0 as int, pairs@[m].1 as int));
        }
        assert(sources_in_grid(g, summary.intents@));
    }
    let res = apply_granular_intents(world, defs, frontier, &summary.intents, empty, empty_dur);
    proof {
        lemma_granular_apply_in_grid(d, g, rest, summary.intents@, empty, empty_dur);
    }
    let active = frontier.len() > 0;
    wake.set_active(active);
    let r = GranularTickResult {
        candidates: cands,
        deferred,
        moves: summary.intents,
        applied: res.applied,
        granular_activated: res.granular_activated,
        effects: res.effects,
    };
    proof {
        assert(canonical_for(r.moves@, planned) && forall|t: GranularIntent| planned.contains(t) <==> planned_moves(d, g, r.candidates@, t));
    }
    r
}

/// Waking only marks cells of the grid.
pub proof fn lemma_after_wake_points_in_grid(d: Seq<CellSample>, g: GridView, f: Set<CandidateCell>, pts: Set<WakePoint>)
    requires
        cells_in_grid(g, f),
    ensures
        cells_in_grid(g, after_wake_points(d, g, f, pts)),
{
}

/// Region scans only mark cells of the grid.
pub proof fn lemma_seed_fold_in_grid(
    d: Seq<CellSample>,
    g: GridView,
    f: Set<CandidateCell>,
    times: spec_fn(GranularChunkKey) -> Option<u64>,
    seeds: Seq<WakePoint>,
    now: u64,
)
    requires
        cells_in_grid(g, f),
    ensures
        cells_in_grid(g, seed_fold(d, g, f, times, seeds, now).frontier),
    decreases seeds.len(),
{
    if seeds.len() > 0 {
        lemma_seed_fold_in_grid(d, g, f, times, seeds.drop_last(), now);
    }
}

/// Applying moves only marks cells of the grid.
pub proof fn lemma_granular_apply_in_grid(d: Seq<CellSample>, g: GridView, f: Set<CandidateCell>, ts: Seq<GranularIntent>, empty: u8, empty_dur: u32)
    requires
        cells_in_grid(g, f),
    ensures
        cells_in_grid(granular_apply(d, g, f, ts, empty, empty_dur).grid, granular_apply(d, g, f, ts, empty, empty_dur).frontier),
        granular_apply(d, g, f, ts, empty, empty_dur).grid.width == g.width,
        granular_apply(d, g, f, ts, empty, empty_dur).grid.height == g.height,
    decreases ts.len(),
{
    if ts.len() > 0 {
        lemma_granular_apply_in_grid(d, g, f, ts.drop_last(), empty, empty_dur);
    }
}

/// A move the grid's verdict plans starts from the analysed cell, which
/// holds sand or a boulder.
pub proof fn lemma_verdict_move_source(d: Seq<CellSample>, g: GridView, sx: int, sy: int, t: GranularIntent)
    requires
        grid_verdict(d, g, sx, sy) == CandidateVerdict::Moves(t),
        i32::MIN <= sx <= i32::MAX,
        i32::MIN <= sy <= i32::MAX,
    ensures
        t.src_x == sx && t.src_y == sy,
        grid_granular(d, g, sx, sy),
{
}

/// A granular tick never eats building infrastructure: the moves it
/// applies (one per source, chosen among the planned ones) leave every
/// golden road, building door, polymer road and NOTHING cell as it was.
pub proof fn lemma_tick_keeps_infrastructure(
    d: Seq<CellSample>,
    g: GridView,
    rest: Set<CandidateCell>,
    cands: Seq<CandidateCell>,
    planned: Seq<GranularIntent>,
    moves: Seq<GranularIntent>,
    empty: u8,
    empty_dur: u32,
    x: int,
    y: int,
)
    requires
        crate::physics_world::grid_wf(g),
        defs_table(d),
        infrastructure_not_granular(d),
        canonical_for(moves, planned),
        forall|t: GranularIntent| planned.contains(t) <==> planned_moves(d, g, cands, t),
        grid_cell(g, x, y) matches Some(c) && is_infrastructure(c),
    ensures
        grid_cell(granular_apply(d, g, rest, moves, empty, empty_dur).grid, x, y) == grid_cell(g, x, y),
{
    assert(sources_granular(d, g, moves)) by {
        assert forall|i: int| 0 <= i < moves.len() implies grid_granular(d, g, (#[trigger] moves[i]).src_x as int, moves[i].src_y as int) by {
            let t = moves[i];
            assert(planned.contains(t));
            let k = choose|k: int| 0 <= k < cands.len() && grid_verdict(d, g, (#[trigger] cands[k]).x as int, cands[k].y as int) == CandidateVerdict::Moves(t);
            lemma_verdict_move_source(d, g, cands[k].x as int, cands[k].y as int, t);
        }
    }
    lemma_apply_keeps_infrastructure(d, g, rest, moves, empty, empty_dur, x, y);
}

} // verus!
