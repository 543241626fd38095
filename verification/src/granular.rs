//! Granular physics (sand and boulders) over a snapshot of world cells:
//! which cells fall or slide, the canonical order in which conflicting
//! moves are applied, and the frontier of cells still worth scanning.
use vstd::prelude::*;
use crate::sorted::{
    KeyOrder, SortedQueue, lemma_sorted_first_is_min, lemma_strictly_sorted_unique, sorted_by_key,
    strictly_sorted,
};

verus! {

/// Cell ids that granular cells never flow into, even where the cell is
/// otherwise empty: NOTHING and the building infrastructure (golden road,
/// building door, polymer road).
pub const NOTHING: u8 = 0;
pub const GOLDEN_ROAD: u8 = 36;
pub const BUILDING_DOOR: u8 = 37;
pub const POLYMER_ROAD: u8 = 39;

/// Cells around a player that a region scan covers.
pub const GRANULAR_SCAN_RADIUS: i32 = 16;
/// Chunk side used to group candidates.
pub const GRANULAR_CHUNK_SIZE: i32 = 32;
/// Extra columns a snapshot keeps on each side of a candidate.
pub const GRANULAR_CACHE_X_PAD: i32 = 1;
/// Extra rows a snapshot keeps below a candidate.
pub const GRANULAR_CACHE_Y_LOOKAHEAD: i32 = 3;

/// What the physics reads of one cell: its id and the properties the cell
/// definitions give it.
#[derive(Clone, Copy, Debug, PartialEq, Eq)]
pub struct CellSample {
    pub cell: u8,
    pub is_empty: bool,
    pub is_sand: bool,
    pub is_boulder: bool,
}

/// A falling cell may enter: empty, and not infrastructure.
pub open spec fn sample_passable(c: CellSample) -> bool {
    c.is_empty && !(c.cell == NOTHING || c.cell == GOLDEN_ROAD || c.cell == BUILDING_DOOR || c.cell
        == POLYMER_ROAD)
}

/// Sand or boulder.
pub open spec fn sample_granular(c: CellSample) -> bool {
    c.is_sand || c.is_boulder
}

fn sample_passable_exec(c: CellSample) -> (r: bool)
    ensures
        r == sample_passable(c),
{
    c.is_empty && !(c.cell == NOTHING || c.cell == GOLDEN_ROAD || c.cell == BUILDING_DOOR || c.cell
        == POLYMER_ROAD)
}

/// A rectangle of cells copied out of the world; `None` for cells outside it.
pub struct GranularScanCache {
    min_x: i32,
    min_y: i32,
    width: usize,
    height: usize,
    cells: Vec<Option<CellSample>>,
}

impl GranularScanCache {
    pub closed spec fn wf(&self) -> bool {
        self.cells@.len() == self.width * self.height
    }

    /// The sample at `(x, y)`, `None` outside the rectangle.
    pub closed spec fn cell_at(&self, x: int, y: int) -> Option<CellSample> {
        let rx = x - self.min_x;
        let ry = y - self.min_y;
        if i32::MIN <= rx <= i32::MAX && i32::MIN <= ry <= i32::MAX && 0 <= rx < self.width && 0
            <= ry < self.height {
            self.cells@[ry * self.width + rx]
        } else {
            None
        }
    }

    /// A snapshot of the `width × height` rectangle whose top-left cell is
    /// `(min_x, min_y)`, given row by row.
    pub fn from_rows(min_x: i32, min_y: i32, width: usize, height: usize, cells: Vec<
        Option<CellSample>,
    >) -> (r: Self)
        requires
            cells@.len() == width * height,
        ensures
            r.wf(),
            forall|x: int, y: int|
                #![trigger r.cell_at(x, y)]
                0 <= x - min_x < width && 0 <= y - min_y < height && x - min_x <= i32::MAX && y
                    - min_y <= i32::MAX ==> r.cell_at(x, y) == cells@[(y - min_y) * width + (x
                    - min_x)],
            forall|x: int, y: int|
                #![trigger r.cell_at(x, y)]
                !(0 <= x - min_x < width && 0 <= y - min_y < height && x - min_x <= i32::MAX && y
                    - min_y <= i32::MAX) ==> r.cell_at(x, y) is None,
    {
        GranularScanCache { min_x, min_y, width, height, cells }
    }

    /// The sample at `(x, y)`.
    pub fn get(&self, x: i32, y: i32) -> (r: Option<CellSample>)
        requires
            self.wf(),
        ensures
            r == self.cell_at(x as int, y as int),
    {
        let rx = x as i64 - self.min_x as i64;
        let ry = y as i64 - self.min_y as i64;
        if rx < i32::MIN as i64 || rx > i32::MAX as i64 || ry < i32::MIN as i64 || ry > i32::MAX
            as i64 {
            return None;
        }
        if rx < 0 || ry < 0 {
            return None;
        }
        let rx = rx as usize;
        let ry = ry as usize;
        if rx >= self.width || ry >= self.height {
            return None;
        }
        let len = self.cells.len();
        proof {
            assert(ry * self.width + rx < self.width * self.height) by (nonlinear_arith)
                requires
                    rx < self.width,
                    ry < self.height,
            ;
            assert(ry * self.width <= ry * self.width + rx);
        }
        let row = ry * self.width;
        self.cells[row + rx]
    }
}

/// A falling cell may enter `(x, y)` of the snapshot.
pub open spec fn passable_at(cache: GranularScanCache, x: int, y: int) -> bool {
    match cache.cell_at(x, y) {
        Some(c) => sample_passable(c),
        None => false,
    }
}

/// `(x, y)` of the snapshot holds sand or a boulder.
pub open spec fn granular_at(cache: GranularScanCache, x: int, y: int) -> bool {
    match cache.cell_at(x, y) {
        Some(c) => sample_granular(c),
        None => false,
    }
}

pub(crate) fn is_passable_cached(cache: &GranularScanCache, x: i32, y: i32) -> (r: bool)
    requires
        cache.wf(),
    ensures
        r == passable_at(*cache, x as int, y as int),
{
    match cache.get(x, y) {
        Some(c) => sample_passable_exec(c),
        None => false,
    }
}

pub(crate) fn is_granular_cached(cache: &GranularScanCache, x: i32, y: i32) -> (r: bool)
    requires
        cache.wf(),
    ensures
        r == granular_at(*cache, x as int, y as int),
{
    match cache.get(x, y) {
        Some(c) => c.is_sand || c.is_boulder,
        None => false,
    }
}

/// How the cell below `(x, y)` lets it fall: 1 = it falls one row, 0 = it
/// rests on granular material and may slide, 2 = blocked. A cell whose
/// destination is followed by more granular material over a blocking cell
/// falls; over a passable one it waits for the column to clear.
pub open spec fn spec_down_free(cache: GranularScanCache, x: int, y: int) -> u8 {
    if passable_at(cache, x, y + 1) {
        if granular_at(cache, x, y + 2) {
            if !passable_at(cache, x, y + 3) {
                1
            } else {
                2
            }
        } else {
            1
        }
    } else if granular_at(cache, x, y + 1) {
        0
    } else {
        2
    }
}

pub fn down_free_cached(cache: &GranularScanCache, x: i32, y: i32) -> (r: u8)
    requires
        cache.wf(),
        y <= i32::MAX - 3,
    ensures
        r == spec_down_free(*cache, x as int, y as int),
{
    if is_passable_cached(cache, x, y + 1) {
        if is_granular_cached(cache, x, y + 2) {
            if !is_passable_cached(cache, x, y + 3) {
                return 1;
            }
            return 2;
        }
        return 1;
    }
    if is_granular_cached(cache, x, y + 1) {
        return 0;
    }
    2
}

/// A planned move of one granular cell.
#[derive(Clone, Copy, Debug, PartialEq, Eq, Structural)]
pub struct GranularIntent {
    pub src_x: i32,
    pub src_y: i32,
    pub dest_x: i32,
    pub dest_y: i32,
    pub cell: u8,
}

/// The chunk (32×32) a cell belongs to.
#[derive(Clone, Copy, Debug, PartialEq, Eq, Structural)]
pub struct GranularChunkKey {
    pub x: i32,
    pub y: i32,
}

fn div_euclid_chunk(v: i32) -> (r: i32)
    ensures
        r == (v as int) / 32,
{
    if v >= 0 {
        v / 32
    } else {
        let a: i64 = 0 - (v as i64);
        let q: i64 = (a + 31) / 32;
        assert(-32 * q <= v < -32 * q + 32);
        (0 - q) as i32
    }
}

impl GranularChunkKey {
    /// The chunk of cell `(x, y)` (floor division).
    pub fn for_cell(x: i32, y: i32) -> (r: Self)
        ensures
            r.x == (x as int) / 32,
            r.y == (y as int) / 32,
    {
        GranularChunkKey { x: div_euclid_chunk(x), y: div_euclid_chunk(y) }
    }
}

impl GranularIntent {
    /// The order that decides conflicts: source, then destination, then cell.
    pub fn stable_key(self) -> (r: (i32, i32, i32, i32, u8))
        ensures
            r == (self.src_x, self.src_y, self.dest_x, self.dest_y, self.cell),
    {
        (self.src_x, self.src_y, self.dest_x, self.dest_y, self.cell)
    }

    /// The chunk the cell leaves.
    pub fn source_chunk(self) -> (r: GranularChunkKey)
        ensures
            r.x == (self.src_x as int) / 32,
            r.y == (self.src_y as int) / 32,
    {
        GranularChunkKey::for_cell(self.src_x, self.src_y)
    }

    /// The move leaves its chunk.
    pub fn crosses_chunk_boundary(self) -> (r: bool)
        ensures
            r == ((self.src_x as int) / 32 != (self.dest_x as int) / 32 || (self.src_y as int) / 32
                != (self.dest_y as int) / 32),
    {
        let s = self.source_chunk();
        let d = GranularChunkKey::for_cell(self.dest_x, self.dest_y);
        s.x != d.x || s.y != d.y
    }
}

/// Which side a blocked cell tries first: alternating by cell parity.
pub open spec fn spec_slide_order(x: int, y: int) -> (int, int) {
    if (x + y) % 2 == 0 {
        (x + 1, x - 1)
    } else {
        (x - 1, x + 1)
    }
}

/// The two columns a resting cell may slide to, in the order tried.
pub fn granular_slide_order(x: i32, y: i32) -> (r: (i32, i32))
    requires
        i32::MIN < x < i32::MAX,
    ensures
        r.0 == spec_slide_order(x as int, y as int).0,
        r.1 == spec_slide_order(x as int, y as int).1,
{
    let parity_even = (x % 2 == 0) == (y % 2 == 0);
    assert(parity_even == ((x + y) % 2 == 0)) by {
        assert((x as int) % 2 == 0 || (x as int) % 2 == 1);
    }
    if parity_even {
        (x + 1, x - 1)
    } else {
        (x - 1, x + 1)
    }
}

/// Counters of one analysis pass.
#[derive(Clone, Copy, Debug, PartialEq, Eq)]
pub struct GranularAnalyzeProfile {
    pub skipped_oob: usize,
    pub skipped_non_granular: usize,
    pub blocked: usize,
    pub falling_cells: usize,
}

impl GranularAnalyzeProfile {
    pub fn zero() -> (r: Self)
        ensures
            r.skipped_oob == 0 && r.skipped_non_granular == 0 && r.blocked == 0 && r.falling_cells
                == 0,
    {
        GranularAnalyzeProfile { skipped_oob: 0, skipped_non_granular: 0, blocked: 0, falling_cells: 0 }
    }

    /// Adds the counters of `other`.
    pub fn merge(&mut self, other: Self)
        requires
            old(self).skipped_oob + other.skipped_oob <= usize::MAX,
            old(self).skipped_non_granular + other.skipped_non_granular <= usize::MAX,
            old(self).blocked + other.blocked <= usize::MAX,
            old(self).falling_cells + other.falling_cells <= usize::MAX,
        ensures
            final(self).skipped_oob == old(self).skipped_oob + other.skipped_oob,
            final(self).skipped_non_granular == old(self).skipped_non_granular
                + other.skipped_non_granular,
            final(self).blocked == old(self).blocked + other.blocked,
            final(self).falling_cells == old(self).falling_cells + other.falling_cells,
    {
        self.skipped_oob = self.skipped_oob + other.skipped_oob;
        self.skipped_non_granular = self.skipped_non_granular + other.skipped_non_granular;
        self.blocked = self.blocked + other.blocked;
        self.falling_cells = self.falling_cells + other.falling_cells;
    }
}

/// The outcome of analysing one candidate cell.
#[derive(Clone, Copy, Debug, PartialEq, Eq)]
pub struct GranularAnalyzeResult {
    pub intent: Option<GranularIntent>,
    pub profile: GranularAnalyzeProfile,
}

/// Why a candidate produced no move, or the move it makes.
pub enum CandidateVerdict {
    OutOfWorld,
    NotGranular,
    Blocked,
    Moves(GranularIntent),
}

/// A candidate at `(sx, sy)` may slide into column `tx`: the cell below is
/// passable, and a boulder also needs the cell beside it to be passable.
pub open spec fn can_slide(cache: GranularScanCache, is_sand: bool, tx: int, sy: int) -> bool {
    passable_at(cache, tx, sy + 1) && (is_sand || passable_at(cache, tx, sy))
}

/// What the physics does with the candidate `(sx, sy)`: outside the world
/// it is skipped; a non-granular cell is skipped; a cell that can fall
/// moves down one row; a cell resting on granular material slides down to
/// the first free side in `spec_slide_order`; otherwise it is blocked.
pub open spec fn spec_candidate_verdict(
    in_world: bool,
    cache: GranularScanCache,
    sx: int,
    sy: int,
) -> CandidateVerdict {
    if !in_world {
        CandidateVerdict::OutOfWorld
    } else {
        let c = cache.cell_at(sx, sy)->Some_0;
        if !sample_granular(c) {
            CandidateVerdict::NotGranular
        } else {
            let df = spec_down_free(cache, sx, sy);
            let mk = |dx: int|
                GranularIntent {
                    src_x: sx as i32,
                    src_y: sy as i32,
                    dest_x: dx as i32,
                    dest_y: (sy + 1) as i32,
                    cell: c.cell,
                };
            if df == 1 {
                CandidateVerdict::Moves(mk(sx))
            } else if df != 0 {
                CandidateVerdict::Blocked
            } else {
                let (first, second) = spec_slide_order(sx, sy);
                if can_slide(cache, c.is_sand, first, sy) {
                    CandidateVerdict::Moves(mk(first))
                } else if can_slide(cache, c.is_sand, second, sy) {
                    CandidateVerdict::Moves(mk(second))
                } else {
                    CandidateVerdict::Blocked
                }
            }
        }
    }
}

/// `r` agrees with `v`: the planned move, and the profile counters (every
/// granular cell counts as falling; blocked ones count as blocked too).
pub open spec fn verdict_result_matches(v: CandidateVerdict, r: GranularAnalyzeResult) -> bool {
    let p = r.profile;
    match v {
        CandidateVerdict::OutOfWorld => r.intent is None && p.skipped_oob == 1
            && p.skipped_non_granular == 0 && p.blocked == 0 && p.falling_cells == 0,
        CandidateVerdict::NotGranular => r.intent is None && p.skipped_oob == 0
            && p.skipped_non_granular == 1 && p.blocked == 0 && p.falling_cells == 0,
        CandidateVerdict::Blocked => r.intent is None && p.skipped_oob == 0 && p.skipped_non_granular
            == 0 && p.blocked == 1 && p.falling_cells == 1,
        CandidateVerdict::Moves(i) => r.intent == Some(i) && p.skipped_oob == 0
            && p.skipped_non_granular == 0 && p.blocked == 0 && p.falling_cells == 1,
    }
}

/// Analyses the candidate `(sx, sy)`; `in_world` tells whether it is a
/// valid world coordinate (such cells are in the snapshot).
pub fn analyze_granular_candidate(in_world: bool, snapshot: &GranularScanCache, sx: i32, sy: i32) -> (r:
    GranularAnalyzeResult)
    requires
        snapshot.wf(),
        in_world ==> snapshot.cell_at(sx as int, sy as int) is Some,
        i32::MIN < sx < i32::MAX,
        sy <= i32::MAX - 3,
    ensures
        verdict_result_matches(
            spec_candidate_verdict(in_world, *snapshot, sx as int, sy as int),
            r,
        ),
{
    let mut profile = GranularAnalyzeProfile::zero();
    if !in_world {
        profile.skipped_oob = 1;
        return GranularAnalyzeResult { intent: None, profile };
    }
    let cell = match snapshot.get(sx, sy) {
        Some(c) => c,
        None => {
            return GranularAnalyzeResult { intent: None, profile };
        },
    };
    let is_s = cell.is_sand;
    let is_b = cell.is_boulder;
    if !is_s && !is_b {
        profile.skipped_non_granular = 1;
        return GranularAnalyzeResult { intent: None, profile };
    }
    profile.falling_cells = 1;
    let df = down_free_cached(snapshot, sx, sy);
    if df == 1 {
        return GranularAnalyzeResult {
            intent: Some(
                GranularIntent { src_x: sx, src_y: sy, dest_x: sx, dest_y: sy + 1, cell: cell.cell },
            ),
            profile,
        };
    }
    if df != 0 {
        profile.blocked = 1;
        return GranularAnalyzeResult { intent: None, profile };
    }
    let (first_x, second_x) = granular_slide_order(sx, sy);
    let first_ok = is_passable_cached(snapshot, first_x, sy + 1) && (is_s || is_passable_cached(
        snapshot,
        first_x,
        sy,
    ));
    let dest_x = if first_ok {
        Some(first_x)
    } else if is_passable_cached(snapshot, second_x, sy + 1) && (is_s || is_passable_cached(
        snapshot,
        second_x,
        sy,
    )) {
        Some(second_x)
    } else {
        None
    };
    match dest_x {
        Some(dest_x) => GranularAnalyzeResult {
            intent: Some(
                GranularIntent { src_x: sx, src_y: sy, dest_x, dest_y: sy + 1, cell: cell.cell },
            ),
            profile,
        },
        None => {
            profile.blocked = 1;
            GranularAnalyzeResult { intent: None, profile }
        },
    }
}


/// Lexicographic order on `(src_x, src_y, dest_x, dest_y, cell)`.
#[verifier::opaque]
pub open spec fn intent_key_le(a: GranularIntent, b: GranularIntent) -> bool {
    a.src_x < b.src_x || (a.src_x == b.src_x && (a.src_y < b.src_y || (a.src_y == b.src_y && (
    a.dest_x < b.dest_x || (a.dest_x == b.dest_x && (a.dest_y < b.dest_y || (a.dest_y == b.dest_y
        && a.cell <= b.cell)))))))
}

impl KeyOrder for GranularIntent {
    open spec fn key_le(self, other: Self) -> bool {
        intent_key_le(self, other)
    }

    fn key_le_exec(&self, other: &Self) -> (r: bool) {
        proof {
            reveal(intent_key_le);
        }
        self.src_x < other.src_x || (self.src_x == other.src_x && (self.src_y < other.src_y || (
        self.src_y == other.src_y && (self.dest_x < other.dest_x || (self.dest_x == other.dest_x
            && (self.dest_y < other.dest_y || (self.dest_y == other.dest_y && self.cell
            <= other.cell)))))))
    }

    proof fn lemma_key_le_total(a: Self, b: Self) {
        reveal(intent_key_le);
    }

    proof fn lemma_key_le_trans(a: Self, b: Self, c: Self) {
        reveal(intent_key_le);
    }

    proof fn lemma_key_le_antisym(a: Self, b: Self) {
        reveal(intent_key_le);
    }
}

/// Both moves start from the same cell.
pub open spec fn same_source(a: GranularIntent, b: GranularIntent) -> bool {
    a.src_x == b.src_x && a.src_y == b.src_y
}

/// `out` is the canonical form of `input`: in stable-key order, one move
/// per source cell, namely the least (by stable key) move `input` plans
/// for that cell.
pub open spec fn canonical_for(out: Seq<GranularIntent>, input: Seq<GranularIntent>) -> bool {
    &&& strictly_sorted(out)
    &&& forall|i: int, j: int|
        0 <= i < j < out.len() ==> !same_source(#[trigger] out[i], #[trigger] out[j])
    &&& forall|i: int| 0 <= i < out.len() ==> input.contains(#[trigger] out[i])
    &&& forall|x: GranularIntent|
        input.contains(x) ==> exists|i: int|
            0 <= i < out.len() && same_source(#[trigger] out[i], x) && out[i].key_le(x)
}

proof fn lemma_same_source_between(a: GranularIntent, b: GranularIntent, c: GranularIntent)
    requires
        a.key_le(b),
        b.key_le(c),
        same_source(a, c),
    ensures
        same_source(a, b),
{
    reveal(intent_key_le);
}

/// The invariant of the dedup pass after `j` entries of the sorted `s`:
/// `out[a]` is `s[idx[a]]`, and the entry `s[m]` is represented by
/// `out[own[m]]`, a move from the same cell that comes no later.
spec fn dedup_state(
    s: Seq<GranularIntent>,
    j: int,
    out: Seq<GranularIntent>,
    idx: Seq<int>,
    own: Seq<int>,
) -> bool {
    &&& strictly_sorted(out)
    &&& forall|a: int, b: int|
        0 <= a < b < out.len() ==> !same_source(#[trigger] out[a], #[trigger] out[b])
    &&& idx.len() == out.len()
    &&& forall|a: int| 0 <= a < out.len() ==> 0 <= #[trigger] idx[a] < j && s[idx[a]] == out[a]
    &&& own.len() == j
    &&& forall|m: int|
        0 <= m < j ==> 0 <= #[trigger] own[m] < out.len() && same_source(out[own[m]], s[m])
            && out[own[m]].key_le(s[m])
    &&& (j > 0 ==> out.len() > 0 && same_source(out[out.len() - 1], s[j - 1]))
}

proof fn lemma_dedup_keep(
    s: Seq<GranularIntent>,
    j: int,
    out: Seq<GranularIntent>,
    idx: Seq<int>,
    own: Seq<int>,
)
    requires
        sorted_by_key(s),
        0 <= j < s.len(),
        dedup_state(s, j, out, idx, own),
        out.len() > 0 ==> !same_source(out[out.len() - 1], s[j]),
    ensures
        dedup_state(s, j + 1, out.push(s[j]), idx.push(j), own.push(out.len() as int)),
{
    let x = s[j];
    let after = out.push(x);
    let idx2 = idx.push(j);
    let own2 = own.push(out.len() as int);
    if out.len() > 0 {
        let last = out[out.len() - 1];
        let m = idx[out.len() - 1];
        assert(s[m].key_le(s[j]));
        assert forall|a: int| 0 <= a < out.len() implies (#[trigger] out[a]).key_le(x) && !same_source(
            out[a],
            x,
        ) by {
            if a < out.len() - 1 {
                assert(out[a].key_le(last));
                GranularIntent::lemma_key_le_trans(out[a], last, x);
                if same_source(out[a], x) {
                    lemma_same_source_between(out[a], last, x);
                }
            }
        }
    }
    assert forall|a: int, b: int| 0 <= a < b < after.len() implies (#[trigger] after[a]).key_le(
        #[trigger] after[b],
    ) && after[a] != after[b] && !same_source(after[a], after[b]) by {
        if b < out.len() {
            assert(after[a] == out[a] && after[b] == out[b]);
        } else {
            assert(after[a] == out[a] && after[b] == x);
        }
    }
    assert forall|a: int| 0 <= a < after.len() implies 0 <= #[trigger] idx2[a] < j + 1 && s[idx2[a]]
        == after[a] by {
        if a < out.len() {
            assert(idx2[a] == idx[a] && after[a] == out[a]);
        }
    }
    assert forall|m: int| 0 <= m < j + 1 implies 0 <= #[trigger] own2[m] < after.len() && same_source(
        after[own2[m]],
        s[m],
    ) && after[own2[m]].key_le(s[m]) by {
        if m < j {
            assert(own2[m] == own[m]);
            assert(after[own[m]] == out[own[m]]);
        } else {
            GranularIntent::lemma_key_le_total(x, x);
        }
    }
}

proof fn lemma_dedup_skip(
    s: Seq<GranularIntent>,
    j: int,
    out: Seq<GranularIntent>,
    idx: Seq<int>,
    own: Seq<int>,
)
    requires
        sorted_by_key(s),
        0 <= j < s.len(),
        dedup_state(s, j, out, idx, own),
        out.len() > 0,
        same_source(out[out.len() - 1], s[j]),
    ensures
        dedup_state(s, j + 1, out, idx, own.push(out.len() - 1)),
{
    let own2 = own.push(out.len() - 1);
    let m = idx[out.len() - 1];
    assert(s[m].key_le(s[j]));
    assert forall|mm: int| 0 <= mm < j + 1 implies 0 <= #[trigger] own2[mm] < out.len() && same_source(
        out[own2[mm]],
        s[mm],
    ) && out[own2[mm]].key_le(s[mm]) by {
        if mm < j {
            assert(own2[mm] == own[mm]);
        }
    }
}

/// Sorts the planned moves by stable key and keeps one move per source
/// cell, the least; the result does not depend on the order in which the
/// moves were planned.
pub fn canonicalize_granular_intents(intents: &mut Vec<GranularIntent>)
    ensures
        canonical_for(final(intents)@, old(intents)@),
{
    let ghost input = intents@;
    let q = crate::sorted::sorted_from(intents);
    let ghost s = q.entries();
    let mut out: Vec<GranularIntent> = Vec::new();
    let ghost mut idx: Seq<int> = Seq::empty();
    let ghost mut own: Seq<int> = Seq::empty();
    let mut j: usize = 0;
    let n = q.len();
    while j < n
        invariant
            n == s.len(),
            s == q.entries(),
            sorted_by_key(s),
            forall|x: GranularIntent| s.contains(x) <==> input.contains(x),
            j <= n,
            dedup_state(s, j as int, out@, idx, own),
        decreases n - j,
    {
        let x = q.entries_at(j);
        let keep = if out.len() == 0 {
            true
        } else {
            let last = out[out.len() - 1];
            !(last.src_x == x.src_x && last.src_y == x.src_y)
        };
        if keep {
            proof {
                lemma_dedup_keep(s, j as int, out@, idx, own);
                own = own.push(out@.len() as int);
                idx = idx.push(j as int);
            }
            out.push(x);
        } else {
            proof {
                lemma_dedup_skip(s, j as int, out@, idx, own);
                own = own.push(out@.len() - 1);
            }
        }
        j = j + 1;
    }
    proof {
        assert forall|a: int| 0 <= a < out@.len() implies input.contains(#[trigger] out@[a]) by {
            assert(s[idx[a]] == out@[a]);
            assert(s.contains(s[idx[a]]));
        }
        assert forall|x: GranularIntent| input.contains(x) implies exists|a: int|
            0 <= a < out@.len() && same_source(#[trigger] out@[a], x) && out@[a].key_le(x) by {
            assert(s.contains(x));
            let m = choose|m: int| 0 <= m < s.len() && s[m] == x;
            assert(0 <= own[m] < out@.len());
        }
    }
    *intents = out;
}

/// The canonical form of the planned moves depends only on which moves
/// were planned, not on the order the analysis produced them in.
pub proof fn lemma_canonical_order_independent(
    a: Seq<GranularIntent>,
    b: Seq<GranularIntent>,
    out_a: Seq<GranularIntent>,
    out_b: Seq<GranularIntent>,
)
    requires
        forall|x: GranularIntent| a.contains(x) <==> b.contains(x),
        canonical_for(out_a, a),
        canonical_for(out_b, b),
    ensures
        out_a == out_b,
{
    assert forall|o: GranularIntent| out_a.contains(o) <==> out_b.contains(o) by {
        if out_a.contains(o) {
            lemma_canonical_member(out_a, a, o);
            lemma_canonical_member(out_b, b, o);
        }
        if out_b.contains(o) {
            lemma_canonical_member(out_b, b, o);
            lemma_canonical_member(out_a, a, o);
        }
    }
    lemma_strictly_sorted_unique(out_a, out_b);
}

/// A move is in the canonical form exactly when it is planned and no
/// planned move from the same cell comes before it.
proof fn lemma_canonical_member(out: Seq<GranularIntent>, input: Seq<GranularIntent>, o: GranularIntent)
    requires
        canonical_for(out, input),
    ensures
        out.contains(o) <==> (input.contains(o) && forall|x: GranularIntent|
            input.contains(x) && same_source(x, o) ==> o.key_le(x)),
{
    if out.contains(o) {
        let i = choose|i: int| 0 <= i < out.len() && out[i] == o;
        assert forall|x: GranularIntent| input.contains(x) && same_source(x, o) implies o.key_le(
            x,
        ) by {
            let j = choose|j: int| 0 <= j < out.len() && same_source(#[trigger] out[j], x) && out[j].key_le(x);
            if i != j {
                if i < j {
                    assert(!same_source(out[i], out[j]));
                } else {
                    assert(!same_source(out[j], out[i]));
                }
            }
        }
    }
    if input.contains(o) && forall|x: GranularIntent|
        input.contains(x) && same_source(x, o) ==> o.key_le(x) {
        let j = choose|j: int| 0 <= j < out.len() && same_source(#[trigger] out[j], o) && out[j].key_le(o);
        assert(input.contains(out[j]));
        assert(o.key_le(out[j]));
        GranularIntent::lemma_key_le_antisym(o, out[j]);
    }
}


/// The rectangle a snapshot for a set of candidates covers: one extra
/// column on each side and three extra rows below every candidate.
#[derive(Clone, Copy, Debug, PartialEq, Eq)]
pub struct SnapshotRect {
    pub min_x: i32,
    pub min_y: i32,
    pub width: usize,
    pub height: usize,
}

/// Least `x` (or `y` when `by_y`) over the candidates.
pub open spec fn min_coord(c: Seq<(i32, i32)>, by_y: bool) -> int
    decreases c.len(),
{
    if c.len() <= 1 {
        if by_y {
            c[0].1 as int
        } else {
            c[0].0 as int
        }
    } else {
        let v = if by_y {
            c.last().1 as int
        } else {
            c.last().0 as int
        };
        let m = min_coord(c.drop_last(), by_y);
        if v < m {
            v
        } else {
            m
        }
    }
}

/// Greatest `x` (or `y` when `by_y`) over the candidates.
pub open spec fn max_coord(c: Seq<(i32, i32)>, by_y: bool) -> int
    decreases c.len(),
{
    if c.len() <= 1 {
        if by_y {
            c[0].1 as int
        } else {
            c[0].0 as int
        }
    } else {
        let v = if by_y {
            c.last().1 as int
        } else {
            c.last().0 as int
        };
        let m = max_coord(c.drop_last(), by_y);
        if v > m {
            v
        } else {
            m
        }
    }
}

/// The padded bounding box of the candidates.
pub open spec fn spec_candidate_rect(c: Seq<(i32, i32)>) -> (int, int, int, int) {
    let min_x = min_coord(c, false) - GRANULAR_CACHE_X_PAD;
    let max_x = max_coord(c, false) + GRANULAR_CACHE_X_PAD;
    let min_y = min_coord(c, true);
    let max_y = max_coord(c, true) + GRANULAR_CACHE_Y_LOOKAHEAD;
    (min_x, min_y, max_x - min_x + 1, max_y - min_y + 1)
}

/// The snapshot rectangle for a non-empty batch of candidates.
pub fn rect_for_candidates(candidates: &[(i32, i32)]) -> (r: SnapshotRect)
    requires
        candidates@.len() > 0,
        forall|i: int|
            0 <= i < candidates@.len() ==> i32::MIN + 1 <= (#[trigger] candidates@[i]).0 <= i32::MAX
                - 1 && candidates@[i].1 <= i32::MAX - 3,
        spec_candidate_rect(candidates@).2 <= i32::MAX,
        spec_candidate_rect(candidates@).3 <= i32::MAX,
    ensures
        r.min_x == spec_candidate_rect(candidates@).0,
        r.min_y == spec_candidate_rect(candidates@).1,
        r.width == spec_candidate_rect(candidates@).2,
        r.height == spec_candidate_rect(candidates@).3,
{
    let (first_x, first_y) = candidates[0];
    let mut min_x = first_x - GRANULAR_CACHE_X_PAD;
    let mut max_x = first_x + GRANULAR_CACHE_X_PAD;
    let mut min_y = first_y;
    let mut max_y = first_y + GRANULAR_CACHE_Y_LOOKAHEAD;
    let mut i: usize = 1;
    assert(candidates@.take(1) =~= seq![candidates@[0]]);
    while i < candidates.len()
        invariant
            1 <= i <= candidates@.len(),
            forall|k: int|
                0 <= k < candidates@.len() ==> i32::MIN + 1 <= (#[trigger] candidates@[k]).0
                    <= i32::MAX - 1 && candidates@[k].1 <= i32::MAX - 3,
            min_x == min_coord(candidates@.take(i as int), false) - GRANULAR_CACHE_X_PAD,
            max_x == max_coord(candidates@.take(i as int), false) + GRANULAR_CACHE_X_PAD,
            min_y == min_coord(candidates@.take(i as int), true),
            max_y == max_coord(candidates@.take(i as int), true) + GRANULAR_CACHE_Y_LOOKAHEAD,
        decreases candidates@.len() - i,
    {
        let (x, y) = candidates[i];
        assert(candidates@.take(i + 1).drop_last() =~= candidates@.take(i as int));
        if x - GRANULAR_CACHE_X_PAD < min_x {
            min_x = x - GRANULAR_CACHE_X_PAD;
        }
        if x + GRANULAR_CACHE_X_PAD > max_x {
            max_x = x + GRANULAR_CACHE_X_PAD;
        }
        if y < min_y {
            min_y = y;
        }
        if y + GRANULAR_CACHE_Y_LOOKAHEAD > max_y {
            max_y = y + GRANULAR_CACHE_Y_LOOKAHEAD;
        }
        i = i + 1;
    }
    assert(candidates@.take(candidates@.len() as int) =~= candidates@);
    let width = (max_x as i64 - min_x as i64 + 1) as usize;
    let height = (max_y as i64 - min_y as i64 + 1) as usize;
    SnapshotRect { min_x, min_y, width, height }
}

/// Scan order of candidate cells: bottom rows first, then left to right.
#[derive(Clone, Copy, Debug, PartialEq, Eq, Structural)]
pub struct CandidateCell {
    pub x: i32,
    pub y: i32,
}

impl KeyOrder for CandidateCell {
    open spec fn key_le(self, other: Self) -> bool {
        self.y > other.y || (self.y == other.y && self.x <= other.x)
    }

    fn key_le_exec(&self, other: &Self) -> (r: bool) {
        self.y > other.y || (self.y == other.y && self.x <= other.x)
    }

    proof fn lemma_key_le_total(a: Self, b: Self) {
    }

    proof fn lemma_key_le_trans(a: Self, b: Self, c: Self) {
    }

    proof fn lemma_key_le_antisym(a: Self, b: Self) {
    }
}

/// Cells still worth analysing.
pub struct GranularFrontier {
    active_cells: Vec<CandidateCell>,
}

/// No cell is listed twice.
pub open spec fn distinct_cells(s: Seq<CandidateCell>) -> bool {
    forall|i: int, j: int| 0 <= i < j < s.len() ==> #[trigger] s[i] != #[trigger] s[j]
}

impl GranularFrontier {
    /// The active cells (in no particular order).
    pub closed spec fn cells(&self) -> Seq<CandidateCell> {
        self.active_cells@
    }

    pub closed spec fn wf(&self) -> bool {
        distinct_cells(self.active_cells@)
    }

    pub fn new() -> (r: Self)
        ensures
            r.wf(),
            r.cells() == Seq::<CandidateCell>::empty(),
    {
        GranularFrontier { active_cells: Vec::new() }
    }

    /// No cell is listed twice.
    pub proof fn lemma_no_duplicates(&self)
        requires
            self.wf(),
        ensures
            self.cells().no_duplicates(),
            self.cells().to_set().len() == self.cells().len(),
    {
        assert(self.active_cells@.no_duplicates()) by {
            assert forall|a: int, b: int| 0 <= a < self.active_cells@.len() && 0 <= b < self.active_cells@.len() && a != b
                implies self.active_cells@[a] != self.active_cells@[b] by {
                if a < b {
                    assert(self.active_cells@[a] != self.active_cells@[b]);
                } else {
                    assert(self.active_cells@[b] != self.active_cells@[a]);
                }
            }
        }
        self.active_cells@.unique_seq_to_set();
    }

    /// How many cells are active.
    pub fn len(&self) -> (r: usize)
        ensures
            r == self.cells().len(),
    {
        self.active_cells.len()
    }

    /// Marks `c` active; reports whether it was not active before.
    pub fn insert(&mut self, c: CandidateCell) -> (r: bool)
        requires
            old(self).wf(),
        ensures
            final(self).wf(),
            r == !old(self).cells().contains(c),
            final(self).cells() == (if r {
                old(self).cells().push(c)
            } else {
                old(self).cells()
            }),
    {
        let mut i: usize = 0;
        while i < self.active_cells.len()
            invariant
                i <= self.active_cells@.len(),
                distinct_cells(self.active_cells@),
                forall|j: int| 0 <= j < i ==> self.active_cells@[j] != c,
            decreases self.active_cells@.len() - i,
        {
            let a = self.active_cells[i];
            if a.x == c.x && a.y == c.y {
                assert(self.active_cells@[i as int] == c);
                return false;
            }
            i = i + 1;
        }
        let ghost before = self.active_cells@;
        self.active_cells.push(c);
        assert forall|x: int, y: int| 0 <= x < y < self.active_cells@.len() implies #[trigger] self.active_cells@[x]
            != #[trigger] self.active_cells@[y] by {
            assert(self.active_cells@[x] == before[x]);
            if y < before.len() {
                assert(self.active_cells@[y] == before[y]);
            }
        }
        true
    }

    /// Takes at most `limit` active cells, bottom rows first and left to
    /// right within a row; the rest stay active. Returns the cells taken
    /// and how many stayed.
    pub fn take_candidates(&mut self, limit: usize) -> (r: (Vec<CandidateCell>, usize))
        requires
            old(self).wf(),
        ensures
            final(self).wf(),
            strictly_sorted(r.0@),
            r.0@.len() == if old(self).cells().len() <= limit {
                old(self).cells().len() as int
            } else {
                limit as int
            },
            r.1 == old(self).cells().len() - r.0@.len(),
            final(self).cells().len() == r.1,
            forall|c: CandidateCell|
                old(self).cells().contains(c) <==> (r.0@.contains(c) || final(self).cells().contains(
                    c,
                )),
            forall|i: int, j: int|
                0 <= i < r.0@.len() && 0 <= j < final(self).cells().len() ==> (#[trigger] r.0@[i]).key_le(
                    #[trigger] final(self).cells()[j],
                ),
            forall|c: CandidateCell| !(r.0@.contains(c) && final(self).cells().contains(c)),
    {
        let q = crate::sorted::sorted_from(&self.active_cells);
        let n = q.len();
        let ghost s = q.entries();
        proof {
            lemma_sorted_distinct(s, self.active_cells@);
        }
        let take = if n <= limit {
            n
        } else {
            limit
        };
        let mut taken: Vec<CandidateCell> = Vec::new();
        let mut rest: Vec<CandidateCell> = Vec::new();
        let mut i: usize = 0;
        while i < n
            invariant
                n == s.len(),
                s == q.entries(),
                strictly_sorted(s),
                take <= n,
                i <= n,
                taken@ == s.take(if i < take {
                    i as int
                } else {
                    take as int
                }),
                rest@ == if i < take {
                    Seq::<CandidateCell>::empty()
                } else {
                    s.subrange(take as int, i as int)
                },
            decreases n - i,
        {
            let c = q.entries_at(i);
            if i < take {
                taken.push(c);
                assert(taken@ =~= s.take(i + 1));
            } else {
                rest.push(c);
                assert(rest@ =~= s.subrange(take as int, i + 1));
            }
            i = i + 1;
        }
        let stayed = rest.len();
        proof {
            assert(taken@ =~= s.take(take as int));
            assert(rest@ =~= s.skip(take as int));
            assert forall|a: int, b: int| 0 <= a < b < taken@.len() implies (#[trigger] taken@[a]).key_le(
                #[trigger] taken@[b],
            ) && taken@[a] != taken@[b] by {
                assert(taken@[a] == s[a] && taken@[b] == s[b]);
            }
            assert forall|a: int, b: int| 0 <= a < b < rest@.len() implies #[trigger] rest@[a] != #[trigger] rest@[b] by {
                assert(rest@[a] == s[a + take] && rest@[b] == s[b + take]);
            }
            assert forall|a: int, b: int|
                0 <= a < taken@.len() && 0 <= b < rest@.len() implies (#[trigger] taken@[a]).key_le(
                #[trigger] rest@[b],
            ) by {
                assert(taken@[a] == s[a] && rest@[b] == s[b + take]);
            }
            assert forall|c: CandidateCell| !(taken@.contains(c) && rest@.contains(c)) by {
                if taken@.contains(c) && rest@.contains(c) {
                    let a = choose|a: int| 0 <= a < taken@.len() && taken@[a] == c;
                    let b = choose|b: int| 0 <= b < rest@.len() && rest@[b] == c;
                    assert(taken@[a] == s[a] && rest@[b] == s[b + take]);
                }
            }
            assert forall|c: CandidateCell|
                self.active_cells@.contains(c) <==> (taken@.contains(c) || rest@.contains(c)) by {
                if s.contains(c) {
                    let k = choose|k: int| 0 <= k < s.len() && s[k] == c;
                    if k < take {
                        assert(taken@[k] == c);
                    } else {
                        assert(rest@[k - take] == c);
                    }
                }
                if taken@.contains(c) {
                    let k = choose|k: int| 0 <= k < taken@.len() && taken@[k] == c;
                    assert(s[k] == c);
                }
                if rest@.contains(c) {
                    let k = choose|k: int| 0 <= k < rest@.len() && rest@[k] == c;
                    assert(s[k + take] == c);
                }
            }
        }
        self.active_cells = rest;
        (taken, stayed)
    }
}

/// A sorted arrangement of distinct cells is strictly sorted.
proof fn lemma_sorted_distinct(s: Seq<CandidateCell>, v: Seq<CandidateCell>)
    requires
        sorted_by_key(s),
        s.len() == v.len(),
        forall|x: CandidateCell| s.contains(x) <==> v.contains(x),
        distinct_cells(v),
    ensures
        strictly_sorted(s),
{
    lemma_same_members_distinct(s, v);
    assert forall|i: int, j: int| 0 <= i < j < s.len() implies #[trigger] s[i] != #[trigger] s[j] by {
        assert(s.no_duplicates());
    }
}

/// A sequence with the same entries and the same length as a duplicate-free
/// one has no duplicates either.
proof fn lemma_same_members_distinct(s: Seq<CandidateCell>, v: Seq<CandidateCell>)
    requires
        s.len() == v.len(),
        forall|x: CandidateCell| s.contains(x) <==> v.contains(x),
        distinct_cells(v),
    ensures
        s.no_duplicates(),
{
    assert(v.no_duplicates()) by {
        assert forall|a: int, b: int| 0 <= a < v.len() && 0 <= b < v.len() && a != b implies v[a] != v[b] by {
            if a < b {
                assert(v[a] != v[b]);
            } else {
                assert(v[b] != v[a]);
            }
        }
    }
    v.unique_seq_to_set();
    assert(s.to_set() =~= v.to_set());
    s.lemma_no_dup_set_cardinality();
}

impl KeyOrder for GranularChunkKey {
    open spec fn key_le(self, other: Self) -> bool {
        self.x < other.x || (self.x == other.x && self.y <= other.y)
    }

    fn key_le_exec(&self, other: &Self) -> (r: bool) {
        self.x < other.x || (self.x == other.x && self.y <= other.y)
    }

    proof fn lemma_key_le_total(a: Self, b: Self) {
    }

    proof fn lemma_key_le_trans(a: Self, b: Self, c: Self) {
    }

    proof fn lemma_key_le_antisym(a: Self, b: Self) {
    }
}

/// The chunk of a candidate cell.
pub open spec fn chunk_of(c: (i32, i32)) -> GranularChunkKey {
    GranularChunkKey { x: ((c.0 as int) / 32) as i32, y: ((c.1 as int) / 32) as i32 }
}

/// The candidates of `cands` that lie in chunk `k`, in order.
pub open spec fn in_chunk(cands: Seq<(i32, i32)>, k: GranularChunkKey) -> Seq<(i32, i32)> {
    cands.filter(|c: (i32, i32)| chunk_of(c) == k)
}

fn chunk_members(cands: &Vec<(i32, i32)>, k: GranularChunkKey) -> (r: Vec<(i32, i32)>)
    ensures
        r@ == in_chunk(cands@, k),
{
    let mut out: Vec<(i32, i32)> = Vec::new();
    let mut i: usize = 0;
    while i < cands.len()
        invariant
            i <= cands@.len(),
            out@ == in_chunk(cands@.take(i as int), k),
        decreases cands@.len() - i,
    {
        let c = cands[i];
        proof {
            assert(cands@.take(i + 1).drop_last() =~= cands@.take(i as int));
            reveal(Seq::filter);
        }
        let key = GranularChunkKey::for_cell(c.0, c.1);
        if key.x == k.x && key.y == k.y {
            out.push(c);
        }
        i = i + 1;
    }
    assert(cands@.take(cands@.len() as int) =~= cands@);
    out
}

/// The distinct entries of `keys` in ascending order.
fn distinct_sorted_keys(keys: &Vec<GranularChunkKey>) -> (r: Vec<GranularChunkKey>)
    ensures
        forall|a: int, b: int|
            0 <= a < b < r@.len() ==> (#[trigger] r@[a]).key_le(#[trigger] r@[b]) && r@[a] != r@[b],
        forall|x: GranularChunkKey| r@.contains(x) <==> keys@.contains(x),
{
    let q = crate::sorted::sorted_from(keys);
    let ghost s = q.entries();
    let n = q.len();
    let mut out: Vec<GranularChunkKey> = Vec::new();
    let mut j: usize = 0;
    while j < n
        invariant
            n == s.len(),
            s == q.entries(),
            sorted_by_key(s),
            j <= n,
            forall|a: int, b: int|
                0 <= a < b < out@.len() ==> (#[trigger] out@[a]).key_le(#[trigger] out@[b])
                    && out@[a] != out@[b],
            forall|a: int| 0 <= a < out@.len() ==> s.subrange(0, j as int).contains(#[trigger] out@[a]),
            forall|m: int| 0 <= m < j ==> out@.contains(#[trigger] s[m]),
            out@.len() > 0 ==> j > 0 && out@.last() == s[j - 1],
        decreases n - j,
    {
        let k = q.entries_at(j);
        let fresh = if out.len() == 0 {
            true
        } else {
            let last = out[out.len() - 1];
            !(last.x == k.x && last.y == k.y)
        };
        let ghost before = out@;
        if fresh {
            proof {
                if before.len() > 0 {
                    assert(s[j - 1].key_le(s[j as int]));
                }
            }
            out.push(k);
            proof {
                assert forall|a: int, b: int|
                    0 <= a < b < out@.len() implies (#[trigger] out@[a]).key_le(#[trigger] out@[b])
                    && out@[a] != out@[b] by {
                    if b == before.len() {
                        assert(out@[a] == before[a]);
                        if a < before.len() - 1 {
                            GranularChunkKey::lemma_key_le_trans(before[a], before.last(), k);
                            if before[a] == k {
                                GranularChunkKey::lemma_key_le_antisym(before.last(), k);
                            }
                        }
                    } else {
                        assert(out@[a] == before[a] && out@[b] == before[b]);
                    }
                }
                assert forall|a: int| 0 <= a < out@.len() implies s.subrange(0, j + 1).contains(
                    #[trigger] out@[a],
                ) by {
                    if a < before.len() {
                        assert(out@[a] == before[a]);
                        let m = choose|m: int| 0 <= m < j && s.subrange(0, j as int)[m] == before[a];
                        assert(s.subrange(0, j + 1)[m] == before[a]);
                    } else {
                        assert(s.subrange(0, j + 1)[j as int] == k);
                    }
                }
                assert forall|m: int| 0 <= m < j + 1 implies out@.contains(#[trigger] s[m]) by {
                    if m < j {
                        let a = choose|a: int| 0 <= a < before.len() && before[a] == s[m];
                        assert(out@[a] == s[m]);
                    } else {
                        assert(out@[before.len() as int] == s[m]);
                    }
                }
            }
        } else {
            proof {
                assert forall|a: int| 0 <= a < out@.len() implies s.subrange(0, j + 1).contains(
                    #[trigger] out@[a],
                ) by {
                    let m = choose|m: int| 0 <= m < j && s.subrange(0, j as int)[m] == out@[a];
                    assert(s.subrange(0, j + 1)[m] == out@[a]);
                }
                assert(out@[out@.len() - 1] == s[j as int]);
            }
        }
        j = j + 1;
    }
    proof {
        assert(s.subrange(0, n as int) =~= s);
        assert forall|x: GranularChunkKey| out@.contains(x) <==> keys@.contains(x) by {
            if keys@.contains(x) {
                let m = choose|m: int| 0 <= m < s.len() && s[m] == x;
                assert(out@.contains(s[m]));
            }
        }
    }
    out
}

/// Groups candidate cells by chunk: the chunks in ascending `(x, y)` order,
/// each once and with the candidates it holds in the order they were given.
pub fn group_candidates_by_chunk(candidates: &Vec<(i32, i32)>) -> (r: Vec<(GranularChunkKey, Vec<(i32, i32)>)>)
    ensures
        forall|i: int, j: int|
            0 <= i < j < r@.len() ==> (#[trigger] r@[i]).0.key_le(#[trigger] r@[j].0) && r@[i].0
                != r@[j].0,
        forall|i: int|
            0 <= i < r@.len() ==> (#[trigger] r@[i]).1@ == in_chunk(candidates@, r@[i].0)
                && r@[i].1@.len() > 0,
        forall|c: (i32, i32)|
            candidates@.contains(c) ==> exists|i: int|
                0 <= i < r@.len() && (#[trigger] r@[i]).0 == chunk_of(c),
{
    let mut keys: Vec<GranularChunkKey> = Vec::new();
    let mut i: usize = 0;
    while i < candidates.len()
        invariant
            i <= candidates@.len(),
            keys@.len() == i,
            forall|j: int| 0 <= j < i ==> #[trigger] keys@[j] == chunk_of(candidates@[j]),
        decreases candidates@.len() - i,
    {
        let c = candidates[i];
        keys.push(GranularChunkKey::for_cell(c.0, c.1));
        i = i + 1;
    }
    let d = distinct_sorted_keys(&keys);
    let mut out: Vec<(GranularChunkKey, Vec<(i32, i32)>)> = Vec::new();
    let mut j: usize = 0;
    while j < d.len()
        invariant
            j <= d@.len(),
            out@.len() == j,
            forall|a: int| 0 <= a < j ==> (#[trigger] out@[a]).0 == d@[a],
            forall|a: int| 0 <= a < j ==> (#[trigger] out@[a]).1@ == in_chunk(candidates@, d@[a]),
        decreases d@.len() - j,
    {
        let k = d[j];
        let members = chunk_members(candidates, k);
        out.push((k, members));
        j = j + 1;
    }
    proof {
        assert forall|a: int| 0 <= a < out@.len() implies (#[trigger] out@[a]).1@ == in_chunk(
            candidates@,
            out@[a].0,
        ) && out@[a].1@.len() > 0 by {
            assert(d@.contains(d@[a]));
            assert(keys@.contains(d@[a]));
            let m = choose|m: int| 0 <= m < keys@.len() && keys@[m] == d@[a];
            lemma_member_in_filter(candidates@, d@[a], m);
        }
        assert forall|c: (i32, i32)| candidates@.contains(c) implies exists|i: int|
            0 <= i < out@.len() && (#[trigger] out@[i]).0 == chunk_of(c) by {
            let m = choose|m: int| 0 <= m < candidates@.len() && candidates@[m] == c;
            assert(keys@.contains(keys@[m]));
            assert(d@.contains(chunk_of(c)));
            let a = choose|a: int| 0 <= a < d@.len() && d@[a] == chunk_of(c);
            assert(out@[a].0 == chunk_of(c));
        }
    }
    out
}

proof fn lemma_member_in_filter(cands: Seq<(i32, i32)>, k: GranularChunkKey, m: int)
    requires
        0 <= m < cands.len(),
        chunk_of(cands[m]) == k,
    ensures
        in_chunk(cands, k).len() > 0,
    decreases cands.len(),
{
    reveal(Seq::filter);
    if m < cands.len() - 1 {
        lemma_member_in_filter(cands.drop_last(), k, m);
        assert(cands.drop_last()[m] == cands[m]);
    }
}

/// The move a verdict makes, if any.
pub open spec fn verdict_intent(v: CandidateVerdict) -> Option<GranularIntent> {
    match v {
        CandidateVerdict::Moves(i) => Some(i),
        _ => None,
    }
}

/// The verdict on the `k`-th candidate of a batch.
pub open spec fn batch_verdict(
    cache: GranularScanCache,
    cands: Seq<(i32, i32)>,
    in_world: Seq<bool>,
    k: int,
) -> CandidateVerdict {
    spec_candidate_verdict(in_world[k], cache, cands[k].0 as int, cands[k].1 as int)
}

/// The moves of the first `n` candidates of a batch, in order.
pub open spec fn batch_intents(
    cache: GranularScanCache,
    cands: Seq<(i32, i32)>,
    in_world: Seq<bool>,
    n: int,
) -> Seq<GranularIntent>
    decreases n,
{
    if n <= 0 {
        Seq::empty()
    } else {
        let prev = batch_intents(cache, cands, in_world, n - 1);
        match verdict_intent(batch_verdict(cache, cands, in_world, n - 1)) {
            Some(i) => prev.push(i),
            None => prev,
        }
    }
}

/// How many of the first `n` verdicts satisfy `f`.
pub open spec fn batch_count(
    cache: GranularScanCache,
    cands: Seq<(i32, i32)>,
    in_world: Seq<bool>,
    n: int,
    f: spec_fn(CandidateVerdict) -> bool,
) -> int
    decreases n,
{
    if n <= 0 {
        0
    } else {
        batch_count(cache, cands, in_world, n - 1, f) + if f(
            batch_verdict(cache, cands, in_world, n - 1),
        ) {
            1int
        } else {
            0int
        }
    }
}

pub open spec fn is_out_of_world(v: CandidateVerdict) -> bool {
    v is OutOfWorld
}

pub open spec fn is_not_granular(v: CandidateVerdict) -> bool {
    v is NotGranular
}

pub open spec fn is_blocked(v: CandidateVerdict) -> bool {
    v is Blocked
}

pub open spec fn is_falling(v: CandidateVerdict) -> bool {
    v is Blocked || v is Moves
}

pub proof fn lemma_batch_count_bound(
    cache: GranularScanCache,
    cands: Seq<(i32, i32)>,
    in_world: Seq<bool>,
    n: int,
    f: spec_fn(CandidateVerdict) -> bool,
)
    requires
        n >= 0,
    ensures
        0 <= batch_count(cache, cands, in_world, n, f) <= n,
    decreases n,
{
    if n > 0 {
        lemma_batch_count_bound(cache, cands, in_world, n - 1, f);
    }
}

/// What analysing candidate cells yields: the planned moves, the counters,
/// and how many chunk batches were analysed.
pub struct GranularAnalyzeSummary {
    pub intents: Vec<GranularIntent>,
    pub profile: GranularAnalyzeProfile,
    pub batches: usize,
}

/// Analyses one chunk batch against its snapshot; `in_world[k]` tells
/// whether candidate `k` is a valid world cell. The moves come in candidate
/// order and each counter counts the verdicts of its kind.
pub fn analyze_granular_batch(
    snapshot: &GranularScanCache,
    candidates: &Vec<(i32, i32)>,
    in_world: &Vec<bool>,
) -> (r: GranularAnalyzeSummary)
    requires
        snapshot.wf(),
        in_world@.len() == candidates@.len(),
        forall|k: int|
            0 <= k < candidates@.len() ==> (#[trigger] in_world@[k]) ==> snapshot.cell_at(
                candidates@[k].0 as int,
                candidates@[k].1 as int,
            ) is Some,
        forall|k: int|
            0 <= k < candidates@.len() ==> i32::MIN < (#[trigger] candidates@[k]).0 < i32::MAX
                && candidates@[k].1 <= i32::MAX - 3,
    ensures
        ({
            let n = candidates@.len() as int;
            let (s, c, w) = (*snapshot, candidates@, in_world@);
            &&& r.intents@ == batch_intents(s, c, w, n)
            &&& r.profile.skipped_oob == batch_count(s, c, w, n, |v| is_out_of_world(v))
            &&& r.profile.skipped_non_granular == batch_count(s, c, w, n, |v| is_not_granular(v))
            &&& r.profile.blocked == batch_count(s, c, w, n, |v| is_blocked(v))
            &&& r.profile.falling_cells == batch_count(s, c, w, n, |v| is_falling(v))
            &&& r.batches == 1
        }),
{
    let ghost (s, c, w) = (*snapshot, candidates@, in_world@);
    let mut intents: Vec<GranularIntent> = Vec::new();
    let mut profile = GranularAnalyzeProfile::zero();
    let mut i: usize = 0;
    while i < candidates.len()
        invariant
            snapshot.wf(),
            s == *snapshot,
            c == candidates@,
            w == in_world@,
            in_world@.len() == candidates@.len(),
            forall|k: int|
                0 <= k < candidates@.len() ==> (#[trigger] in_world@[k]) ==> snapshot.cell_at(
                    candidates@[k].0 as int,
                    candidates@[k].1 as int,
                ) is Some,
            forall|k: int|
                0 <= k < candidates@.len() ==> i32::MIN < (#[trigger] candidates@[k]).0 < i32::MAX
                    && candidates@[k].1 <= i32::MAX - 3,
            i <= candidates@.len(),
            intents@ == batch_intents(s, c, w, i as int),
            profile.skipped_oob == batch_count(s, c, w, i as int, |v| is_out_of_world(v)),
            profile.skipped_non_granular == batch_count(s, c, w, i as int, |v| is_not_granular(v)),
            profile.blocked == batch_count(s, c, w, i as int, |v| is_blocked(v)),
            profile.falling_cells == batch_count(s, c, w, i as int, |v| is_falling(v)),
        decreases candidates@.len() - i,
    {
        let (sx, sy) = candidates[i];
        let res = analyze_granular_candidate(in_world[i], snapshot, sx, sy);
        proof {
            lemma_batch_count_bound(s, c, w, i as int, |v| is_out_of_world(v));
            lemma_batch_count_bound(s, c, w, i as int, |v| is_not_granular(v));
            lemma_batch_count_bound(s, c, w, i as int, |v| is_blocked(v));
            lemma_batch_count_bound(s, c, w, i as int, |v| is_falling(v));
        }
        profile.merge(res.profile);
        match res.intent {
            Some(it) => intents.push(it),
            None => {},
        }
        i = i + 1;
    }
    GranularAnalyzeSummary { intents, profile, batches: 1 }
}

impl GranularAnalyzeSummary {
    /// Nothing analysed yet.
    pub fn empty() -> (r: Self)
        ensures
            r.intents@.len() == 0,
            r.profile.skipped_oob == 0 && r.profile.skipped_non_granular == 0 && r.profile.blocked
                == 0 && r.profile.falling_cells == 0,
            r.batches == 0,
    {
        GranularAnalyzeSummary { intents: Vec::new(), profile: GranularAnalyzeProfile::zero(), batches: 0 }
    }

    /// Adds the result of one more batch: its moves after the ones so far,
    /// its counters to the totals, one more batch.
    pub fn absorb(&mut self, other: GranularAnalyzeSummary)
        requires
            old(self).profile.skipped_oob + other.profile.skipped_oob <= usize::MAX,
            old(self).profile.skipped_non_granular + other.profile.skipped_non_granular <= usize::MAX,
            old(self).profile.blocked + other.profile.blocked <= usize::MAX,
            old(self).profile.falling_cells + other.profile.falling_cells <= usize::MAX,
            old(self).batches < usize::MAX,
        ensures
            final(self).intents@ == old(self).intents@ + other.intents@,
            final(self).profile.skipped_oob == old(self).profile.skipped_oob
                + other.profile.skipped_oob,
            final(self).profile.skipped_non_granular == old(self).profile.skipped_non_granular
                + other.profile.skipped_non_granular,
            final(self).profile.blocked == old(self).profile.blocked + other.profile.blocked,
            final(self).profile.falling_cells == old(self).profile.falling_cells
                + other.profile.falling_cells,
            final(self).batches == old(self).batches + 1,
    {
        let mut more = other.intents;
        self.intents.append(&mut more);
        self.profile.merge(other.profile);
        self.batches = self.batches + 1;
    }
}

} // verus!
