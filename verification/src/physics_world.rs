//! The cell grid that the falling-cell physics reads and changes: cell ids
//! with their carried durability, the cell definitions that say which ids
//! are empty, sand or boulders, snapshots for the analysis, the activation
//! of cells worth rescanning, and the application of planned moves.
use vstd::prelude::*;
use crate::granular::{
    CandidateCell, CellSample, GranularFrontier, GranularIntent, GranularScanCache, sample_granular,
    sample_passable,
};

verus! {

/// The cell definitions: the properties of each of the 256 cell ids.
pub struct CellDefs {
    props: Vec<CellSample>,
}

/// A definitions table: one entry per cell id, at that id's position.
pub open spec fn defs_table(p: Seq<CellSample>) -> bool {
    p.len() == 256 && forall|i: int| 0 <= i < 256 ==> (#[trigger] p[i]).cell == i
}

impl CellDefs {
    /// The table, indexed by cell id.
    pub closed spec fn table(&self) -> Seq<CellSample> {
        self.props@
    }

    pub closed spec fn wf(&self) -> bool {
        defs_table(self.props@)
    }

    /// The definitions given as 256 entries, the entry of id `i` at
    /// position `i`; `None` for any other table.
    pub fn new(props: Vec<CellSample>) -> (r: Option<Self>)
        ensures
            r is Some <==> defs_table(props@),
            r matches Some(d) ==> d.wf() && d.table() == props@,
    {
        if props.len() != 256 {
            return None;
        }
        let mut i: usize = 0;
        while i < 256
            invariant
                props@.len() == 256,
                i <= 256,
                forall|j: int| 0 <= j < i ==> (#[trigger] props@[j]).cell == j,
            decreases 256 - i,
        {
            if props[i].cell as usize != i {
                return None;
            }
            i = i + 1;
        }
        Some(CellDefs { props })
    }

    /// The properties of cell id `c`.
    pub fn get(&self, c: u8) -> (r: CellSample)
        requires
            self.wf(),
        ensures
            r == self.table()[c as int],
    {
        self.props[c as usize]
    }
}

/// What the grid holds, as mathematical values: its size, and the cell id
/// and durability of each cell, row by row.
pub struct GridView {
    pub width: int,
    pub height: int,
    pub cells: Seq<u8>,
    pub dur: Seq<u32>,
}

/// The position of cell `(x, y)` in the row-by-row sequences.
pub open spec fn grid_index(g: GridView, x: int, y: int) -> int {
    y * g.width + x
}

/// `(x, y)` lies in the grid.
pub open spec fn in_grid(g: GridView, x: int, y: int) -> bool {
    0 <= x < g.width && 0 <= y < g.height
}

/// The sizes agree.
pub open spec fn grid_wf(g: GridView) -> bool {
    &&& 0 <= g.width <= i32::MAX
    &&& 0 <= g.height <= i32::MAX
    &&& g.cells.len() == g.width * g.height
    &&& g.dur.len() == g.cells.len()
}

/// The cell id at `(x, y)`, `None` outside the grid.
pub open spec fn grid_cell(g: GridView, x: int, y: int) -> Option<u8> {
    if in_grid(g, x, y) {
        Some(g.cells[grid_index(g, x, y)])
    } else {
        None
    }
}

/// The properties of the cell at `(x, y)`, `None` outside the grid.
pub open spec fn grid_sample(defs: Seq<CellSample>, g: GridView, x: int, y: int) -> Option<CellSample> {
    match grid_cell(g, x, y) {
        Some(c) => Some(defs[c as int]),
        None => None,
    }
}

/// A falling cell may enter `(x, y)`.
pub open spec fn grid_passable(defs: Seq<CellSample>, g: GridView, x: int, y: int) -> bool {
    match grid_sample(defs, g, x, y) {
        Some(s) => sample_passable(s),
        None => false,
    }
}

/// `(x, y)` holds sand or a boulder.
pub open spec fn grid_granular(defs: Seq<CellSample>, g: GridView, x: int, y: int) -> bool {
    match grid_sample(defs, g, x, y) {
        Some(s) => sample_granular(s),
        None => false,
    }
}

/// Inside a grid the row-by-row position is a valid index.
pub proof fn lemma_grid_index(g: GridView, x: int, y: int)
    requires
        grid_wf(g),
        in_grid(g, x, y),
    ensures
        0 <= grid_index(g, x, y) < g.cells.len(),
{
    assert(0 <= y * g.width + x < g.width * g.height) by (nonlinear_arith)
        requires
            0 <= x < g.width,
            0 <= y < g.height,
    ;
}

/// Two cells of a grid share a position only when they are the same cell.
pub proof fn lemma_grid_index_injective(g: GridView, x1: int, y1: int, x2: int, y2: int)
    requires
        in_grid(g, x1, y1),
        in_grid(g, x2, y2),
        grid_index(g, x1, y1) == grid_index(g, x2, y2),
    ensures
        x1 == x2 && y1 == y2,
{
    assert(y1 == y2) by (nonlinear_arith)
        requires
            0 <= x1 < g.width,
            0 <= x2 < g.width,
            y1 * g.width + x1 == y2 * g.width + x2,
    ;
}

/// The world grid.
pub struct PhysicsWorld {
    width: i32,
    height: i32,
    cells: Vec<u8>,
    durability: Vec<u32>,
}

impl PhysicsWorld {
    pub closed spec fn view(&self) -> GridView {
        GridView {
            width: self.width as int,
            height: self.height as int,
            cells: self.cells@,
            dur: self.durability@,
        }
    }

    pub closed spec fn wf(&self) -> bool {
        &&& self.width >= 0
        &&& self.height >= 0
        &&& self.cells@.len() == self.width * self.height
        &&& self.durability@.len() == self.cells@.len()
    }

    /// A grid of `width × height` cells given row by row, with the
    /// durability of each cell (its bit pattern, carried along unchanged).
    pub fn new(width: i32, height: i32, cells: Vec<u8>, durability: Vec<u32>) -> (r: Option<Self>)
        ensures
            r is Some <==> (width >= 0 && height >= 0 && cells@.len() == width * height
                && durability@.len() == cells@.len()),
            r matches Some(w) ==> w.wf() && grid_wf(w.view()) && w.view() == (GridView {
                width: width as int,
                height: height as int,
                cells: cells@,
                dur: durability@,
            }),
    {
        if width < 0 || height < 0 {
            return None;
        }
        assert(0 <= width * height <= 0x7fff_ffff * 0x7fff_ffff) by (nonlinear_arith)
            requires
                0 <= width <= 0x7fff_ffff,
                0 <= height <= 0x7fff_ffff,
        ;
        let n: u64 = width as u64 * height as u64;
        if cells.len() as u64 != n || durability.len() != cells.len() {
            return None;
        }
        Some(PhysicsWorld { width, height, cells, durability })
    }

    pub fn width(&self) -> (r: i32)
        ensures
            r == self.view().width,
    {
        self.width
    }

    pub fn height(&self) -> (r: i32)
        ensures
            r == self.view().height,
    {
        self.height
    }

    /// A well-formed world has a well-formed view.
    pub proof fn lemma_wf(&self)
        requires
            self.wf(),
        ensures
            grid_wf(self.view()),
    {
    }

    fn index_of(&self, x: i32, y: i32) -> (r: usize)
        requires
            self.wf(),
            in_grid(self.view(), x as int, y as int),
        ensures
            r == grid_index(self.view(), x as int, y as int),
            r < self.cells@.len(),
    {
        let len = self.cells.len();
        proof {
            lemma_grid_index(self.view(), x as int, y as int);
            assert(y * self.width <= y * self.width + x);
        }
        let row = y as usize * self.width as usize;
        row + x as usize
    }

    /// The cell id at `(x, y)`, `None` outside the grid.
    pub fn cell(&self, x: i32, y: i32) -> (r: Option<u8>)
        requires
            self.wf(),
        ensures
            r == grid_cell(self.view(), x as int, y as int),
    {
        if x < 0 || y < 0 || x >= self.width || y >= self.height {
            return None;
        }
        let i = self.index_of(x, y);
        Some(self.cells[i])
    }

    /// The durability at `(x, y)`, `None` outside the grid.
    pub fn durability(&self, x: i32, y: i32) -> (r: Option<u32>)
        requires
            self.wf(),
        ensures
            r == (if in_grid(self.view(), x as int, y as int) {
                Some(self.view().dur[grid_index(self.view(), x as int, y as int)])
            } else {
                None
            }),
    {
        if x < 0 || y < 0 || x >= self.width || y >= self.height {
            return None;
        }
        let i = self.index_of(x, y);
        Some(self.durability[i])
    }

    /// The properties of the cell at `(x, y)`, `None` outside the grid.
    pub fn sample(&self, defs: &CellDefs, x: i32, y: i32) -> (r: Option<CellSample>)
        requires
            self.wf(),
            defs.wf(),
        ensures
            r == grid_sample(defs.table(), self.view(), x as int, y as int),
    {
        match self.cell(x, y) {
            Some(c) => Some(defs.get(c)),
            None => None,
        }
    }

    /// A falling cell may enter `(x, y)`.
    pub fn passable(&self, defs: &CellDefs, x: i32, y: i32) -> (r: bool)
        requires
            self.wf(),
            defs.wf(),
        ensures
            r == grid_passable(defs.table(), self.view(), x as int, y as int),
    {
        match self.sample(defs, x, y) {
            Some(s) => s.is_empty && !(s.cell == crate::granular::NOTHING || s.cell
                == crate::granular::GOLDEN_ROAD || s.cell == crate::granular::BUILDING_DOOR
                || s.cell == crate::granular::POLYMER_ROAD),
            None => false,
        }
    }

    /// `(x, y)` holds sand or a boulder.
    pub fn granular(&self, defs: &CellDefs, x: i32, y: i32) -> (r: bool)
        requires
            self.wf(),
            defs.wf(),
        ensures
            r == grid_granular(defs.table(), self.view(), x as int, y as int),
    {
        match self.sample(defs, x, y) {
            Some(s) => s.is_sand || s.is_boulder,
            None => false,
        }
    }
}

/// Position `c` of row `r` in a row-by-row layout `w` wide.
pub open spec fn row_major(w: int, r: int, c: int) -> int {
    r * w + c
}

proof fn lemma_row_major_before(w: int, r: int, c: int, ry: int, rx: int)
    requires
        0 <= c < w,
        0 <= r,
        r < ry || (r == ry && c < rx),
        0 <= rx,
    ensures
        0 <= row_major(w, r, c) < ry * w + rx,
{
    assert(0 <= r * w + c < ry * w + rx) by (nonlinear_arith)
        requires
            0 <= c < w,
            0 <= r,
            r < ry || (r == ry && c < rx),
            0 <= rx,
    ;
}

impl PhysicsWorld {
    /// The properties of the cell at `(x, y)` given as mathematical
    /// coordinates (`None` outside the grid).
    fn sample_wide(&self, defs: &CellDefs, x: i128, y: i128) -> (r: Option<CellSample>)
        requires
            self.wf(),
            defs.wf(),
        ensures
            r == grid_sample(defs.table(), self.view(), x as int, y as int),
    {
        if x < 0 || y < 0 || x >= self.width as i128 || y >= self.height as i128 {
            return None;
        }
        self.sample(defs, x as i32, y as i32)
    }

    /// A copy of the `width × height` rectangle whose top-left cell is
    /// `(min_x, min_y)`, as the analysis reads it: the properties of each
    /// cell, and `None` where the rectangle leaves the world.
    pub fn snapshot_rect(&self, defs: &CellDefs, min_x: i32, min_y: i32, width: usize, height: usize) -> (r: GranularScanCache)
        requires
            self.wf(),
            defs.wf(),
            width * height <= usize::MAX,
        ensures
            r.wf(),
            forall|x: int, y: int|
                #![trigger r.cell_at(x, y)]
                0 <= x - min_x < width && 0 <= y - min_y < height && x - min_x <= i32::MAX && y - min_y <= i32::MAX
                    ==> r.cell_at(x, y) == grid_sample(defs.table(), self.view(), x, y),
            forall|x: int, y: int|
                #![trigger r.cell_at(x, y)]
                !(0 <= x - min_x < width && 0 <= y - min_y < height && x - min_x <= i32::MAX && y - min_y <= i32::MAX)
                    ==> r.cell_at(x, y) is None,
    {
        let mut cells: Vec<Option<CellSample>> = Vec::new();
        let mut ry: usize = 0;
        while ry < height
            invariant
                self.wf(),
                defs.wf(),
                width * height <= usize::MAX,
                ry <= height,
                cells@.len() == ry * width,
                forall|r: int, c: int|
                    #![trigger cells@[row_major(width as int, r, c)]]
                    0 <= r < ry && 0 <= c < width ==> cells@[row_major(width as int, r, c)]
                        == grid_sample(defs.table(), self.view(), min_x + c, min_y + r),
            decreases height - ry,
        {
            let mut rx: usize = 0;
            proof {
                assert(ry * width + width <= width * height) by (nonlinear_arith)
                    requires
                        ry < height,
                ;
            }
            while rx < width
                invariant
                    self.wf(),
                    defs.wf(),
                    ry < height,
                    rx <= width,
                    ry * width + width <= width * height,
                    width * height <= usize::MAX,
                    cells@.len() == ry * width + rx,
                    forall|r: int, c: int|
                        #![trigger cells@[row_major(width as int, r, c)]]
                        0 <= r && 0 <= c < width && (r < ry || (r == ry && c < rx))
                            ==> cells@[row_major(width as int, r, c)]
                            == grid_sample(defs.table(), self.view(), min_x + c, min_y + r),
                decreases width - rx,
            {
                let s = self.sample_wide(defs, min_x as i128 + rx as i128, min_y as i128 + ry as i128);
                let ghost before = cells@;
                cells.push(s);
                proof {
                    assert forall|r: int, c: int|
                        0 <= r && 0 <= c < width && (r < ry || (r == ry && c < rx + 1)) implies
                        #[trigger] cells@[row_major(width as int, r, c)]
                            == grid_sample(defs.table(), self.view(), min_x + c, min_y + r) by {
                        if r == ry && c == rx {
                            assert(row_major(width as int, r, c) == ry * width + rx);
                        } else {
                            lemma_row_major_before(width as int, r, c, ry as int, rx as int);
                            assert(cells@[row_major(width as int, r, c)] == before[row_major(width as int, r, c)]);
                        }
                    }
                }
                rx = rx + 1;
            }
            proof {
                assert((ry + 1) * width == ry * width + width) by (nonlinear_arith);
            }
            ry = ry + 1;
        }
        proof {
            assert(cells@.len() == width * height) by (nonlinear_arith)
                requires
                    cells@.len() == ry * width,
                    ry == height,
            ;
        }
        let r = GranularScanCache::from_rows(min_x, min_y, width, height, cells);
        proof {
            assert forall|x: int, y: int|
                #![trigger r.cell_at(x, y)]
                0 <= x - min_x < width && 0 <= y - min_y < height && x - min_x <= i32::MAX && y - min_y <= i32::MAX
                    implies r.cell_at(x, y) == grid_sample(defs.table(), self.view(), x, y) by {
                assert(row_major(width as int, y - min_y, x - min_x) == (y - min_y) * width + (x - min_x));
                assert(cells@[row_major(width as int, y - min_y, x - min_x)]
                    == grid_sample(defs.table(), self.view(), min_x + (x - min_x), min_y + (y - min_y)));
            }
        }
        r
    }
}

/// `c` lies in the neighbourhood that a change at `(x, y)` wakes: the
/// columns `x-1..=x+1` of the rows `y-2..=y+1`.
pub open spec fn in_wake_area(x: int, y: int, c: CandidateCell) -> bool {
    x - 1 <= c.x <= x + 1 && y - 2 <= c.y <= y + 1
}

/// A change at `(x, y)` makes `c` worth rescanning: it is near and holds
/// sand or a boulder.
pub open spec fn woken_by(defs: Seq<CellSample>, g: GridView, x: int, y: int, c: CandidateCell) -> bool {
    in_wake_area(x, y, c) && grid_granular(defs, g, c.x as int, c.y as int)
}

/// The cells of the frontier `s` after a change at `(x, y)` of the grid `g`.
pub open spec fn after_wake(defs: Seq<CellSample>, g: GridView, s: Set<CandidateCell>, x: int, y: int) -> Set<CandidateCell> {
    s.union(Set::new(|c: CandidateCell| woken_by(defs, g, x, y, c)))
}

/// `c` lies in the rectangle `[x0, x1] × [y0, y1]` and holds sand or a boulder.
pub open spec fn granular_in_rect(defs: Seq<CellSample>, g: GridView, x0: int, x1: int, y0: int, y1: int, c: CandidateCell) -> bool {
    x0 <= c.x <= x1 && y0 <= c.y <= y1 && grid_granular(defs, g, c.x as int, c.y as int)
}

/// The cells of the frontier `s` after marking the granular cells of a rectangle.
pub open spec fn after_mark_rect(defs: Seq<CellSample>, g: GridView, s: Set<CandidateCell>, x0: int, x1: int, y0: int, y1: int) -> Set<CandidateCell> {
    s.union(Set::new(|c: CandidateCell| granular_in_rect(defs, g, x0, x1, y0, y1, c)))
}

/// Marks every sand or boulder cell of the rectangle `[x0, x1] × [y0, y1]`
/// as worth rescanning (cells outside the grid are skipped).
#[verifier::spinoff_prover]
pub fn mark_granular_rect(frontier: &mut GranularFrontier, world: &PhysicsWorld, defs: &CellDefs, x0: i64, x1: i64, y0: i64, y1: i64)
    requires
        old(frontier).wf(),
        world.wf(),
        defs.wf(),
        i32::MIN <= x0 && x1 <= i32::MAX,
        i32::MIN <= y0 && y1 <= i32::MAX,
    ensures
        final(frontier).wf(),
        final(frontier).cells().to_set() == after_mark_rect(defs.table(), world.view(), old(frontier).cells().to_set(), x0 as int, x1 as int, y0 as int, y1 as int),
        final(frontier).cells().len() >= old(frontier).cells().len(),
{
    let ghost start = frontier.cells();
    let ghost g = world.view();
    let ghost d = defs.table();
    if x1 < x0 || y1 < y0 {
        proof {
            assert(frontier.cells().to_set() =~= after_mark_rect(d, g, start.to_set(), x0 as int, x1 as int, y0 as int, y1 as int));
        }
        return;
    }
    let mut y: i64 = y0;
    while y <= y1
        invariant
            world.wf(),
            defs.wf(),
            g == world.view(),
            d == defs.table(),
            x0 <= x1,
            i32::MIN <= x0 && x1 <= i32::MAX,
            i32::MIN <= y0 && y1 <= i32::MAX,
            y0 <= y <= y1 + 1,
            frontier.wf(),
            frontier.cells().len() >= start.len(),
            forall|c: CandidateCell| frontier.cells().contains(c) <==> (start.contains(c)
                || (granular_in_rect(d, g, x0 as int, x1 as int, y0 as int, y1 as int, c) && c.y < y)),
        decreases y1 + 1 - y,
    {
        let mut x: i64 = x0;
        while x <= x1
            invariant
                world.wf(),
                defs.wf(),
                g == world.view(),
                d == defs.table(),
                i32::MIN <= x0 && x1 <= i32::MAX,
                i32::MIN <= y0 && y1 <= i32::MAX,
                y0 <= y <= y1,
                x0 <= x <= x1 + 1,
                frontier.wf(),
                frontier.cells().len() >= start.len(),
                forall|c: CandidateCell| frontier.cells().contains(c) <==> (start.contains(c)
                    || (granular_in_rect(d, g, x0 as int, x1 as int, y0 as int, y1 as int, c) && (c.y < y || (c.y == y && c.x < x)))),
            decreases x1 + 1 - x,
        {
            let ghost pre = frontier.cells();
            let ghost in_g = 0 <= x < g.width && 0 <= y < g.height;
            if 0 <= x && x < world.width() as i64 && 0 <= y && y < world.height() as i64 {
                let c = CandidateCell { x: x as i32, y: y as i32 };
                if world.granular(defs, x as i32, y as i32) {
                    let ghost before = frontier.cells();
                    let added = frontier.insert(c);
                    proof {
                        assert forall|e: CandidateCell| frontier.cells().contains(e) <==> (before.contains(e) || e == c) by {
                            if added {
                                if frontier.cells().contains(e) && e != c {
                                    let k = choose|k: int| 0 <= k < frontier.cells().len() && frontier.cells()[k] == e;
                                    assert(before[k] == e);
                                }
                                if before.contains(e) {
                                    let k = choose|k: int| 0 <= k < before.len() && before[k] == e;
                                    assert(frontier.cells()[k] == e);
                                }
                                assert(frontier.cells()[before.len() as int] == c);
                            }
                        }
                    }
                }
            }
            proof {
                assert forall|e: CandidateCell| frontier.cells().contains(e) <==> (pre.contains(e)
                    || (e.x == x && e.y == y && granular_in_rect(d, g, x0 as int, x1 as int, y0 as int, y1 as int, e))) by {
                    if e.x == x && e.y == y && granular_in_rect(d, g, x0 as int, x1 as int, y0 as int, y1 as int, e) {
                        assert(in_g);
                        assert(e == CandidateCell { x: x as i32, y: y as i32 });
                    }
                }
                assert forall|e: CandidateCell| frontier.cells().contains(e) <==> (start.contains(e)
                    || (granular_in_rect(d, g, x0 as int, x1 as int, y0 as int, y1 as int, e) && (e.y < y || (e.y == y && e.x < x + 1)))) by {
                    assert(frontier.cells().contains(e) <==> (pre.contains(e)
                        || (e.x == x && e.y == y && granular_in_rect(d, g, x0 as int, x1 as int, y0 as int, y1 as int, e))));
                    assert(pre.contains(e) <==> (start.contains(e)
                        || (granular_in_rect(d, g, x0 as int, x1 as int, y0 as int, y1 as int, e) && (e.y < y || (e.y == y && e.x < x)))));
                }
            }
            x = x + 1;
        }
        proof {
            assert forall|e: CandidateCell| frontier.cells().contains(e) <==> (start.contains(e)
                || (granular_in_rect(d, g, x0 as int, x1 as int, y0 as int, y1 as int, e) && e.y < y + 1)) by {
                assert(x == x1 + 1);
                assert(frontier.cells().contains(e) <==> (start.contains(e)
                    || (granular_in_rect(d, g, x0 as int, x1 as int, y0 as int, y1 as int, e) && (e.y < y || (e.y == y && e.x < x)))));
            }
        }
        y = y + 1;
    }
    proof {
        assert(frontier.cells().to_set() =~= after_mark_rect(d, g, start.to_set(), x0 as int, x1 as int, y0 as int, y1 as int));
    }
}

/// Marks the sand and boulders around `(x, y)` as worth rescanning; returns
/// how many of them were not marked before.
pub fn activate_neighborhood(frontier: &mut GranularFrontier, world: &PhysicsWorld, defs: &CellDefs, x: i32, y: i32) -> (r: usize)
    requires
        old(frontier).wf(),
        world.wf(),
        defs.wf(),
    ensures
        final(frontier).wf(),
        final(frontier).cells().to_set() == after_wake(defs.table(), world.view(), old(frontier).cells().to_set(), x as int, y as int),
        r == final(frontier).cells().len() - old(frontier).cells().len(),
{
    let ghost s0 = frontier.cells().to_set();
    let before = frontier.len();
    let x0: i64 = if x == i32::MIN { x as i64 } else { x as i64 - 1 };
    let x1: i64 = if x == i32::MAX { x as i64 } else { x as i64 + 1 };
    let y0: i64 = if y < i32::MIN + 2 { i32::MIN as i64 } else { y as i64 - 2 };
    let y1: i64 = if y == i32::MAX { y as i64 } else { y as i64 + 1 };
    mark_granular_rect(frontier, world, defs, x0, x1, y0, y1);
    proof {
        assert(frontier.cells().to_set() =~= after_wake(defs.table(), world.view(), s0, x as int, y as int));
    }
    frontier.len() - before
}

/// The grid after the cell at the source of `t` moves to its destination:
/// the source becomes the empty cell `empty` with that cell's default
/// durability `empty_dur`, and the destination takes the moving cell id
/// together with the durability the source had.
pub open spec fn grid_move(g: GridView, t: GranularIntent, empty: u8, empty_dur: u32) -> GridView {
    let si = grid_index(g, t.src_x as int, t.src_y as int);
    let di = grid_index(g, t.dest_x as int, t.dest_y as int);
    GridView {
        width: g.width,
        height: g.height,
        cells: g.cells.update(si, empty).update(di, t.cell),
        dur: g.dur.update(si, empty_dur).update(di, g.dur[si]),
    }
}

/// A planned move happens when its destination is passable at that moment.
pub open spec fn move_taken(defs: Seq<CellSample>, g: GridView, t: GranularIntent) -> bool {
    grid_passable(defs, g, t.dest_x as int, t.dest_y as int)
}

/// The grid after one planned move.
pub open spec fn grid_step(defs: Seq<CellSample>, g: GridView, t: GranularIntent, empty: u8, empty_dur: u32) -> GridView {
    if move_taken(defs, g, t) {
        grid_move(g, t, empty, empty_dur)
    } else {
        g
    }
}

/// All sources lie in the grid.
pub open spec fn sources_in_grid(g: GridView, ts: Seq<GranularIntent>) -> bool {
    forall|i: int| 0 <= i < ts.len() ==> in_grid(g, (#[trigger] ts[i]).src_x as int, ts[i].src_y as int)
}

/// Moving cells keeps the size of the grid.
pub proof fn lemma_grid_step_wf(defs: Seq<CellSample>, g: GridView, t: GranularIntent, empty: u8, empty_dur: u32)
    requires
        grid_wf(g),
        in_grid(g, t.src_x as int, t.src_y as int),
    ensures
        grid_wf(grid_step(defs, g, t, empty, empty_dur)),
        grid_step(defs, g, t, empty, empty_dur).width == g.width,
        grid_step(defs, g, t, empty, empty_dur).height == g.height,
{
    lemma_grid_index(g, t.src_x as int, t.src_y as int);
    if move_taken(defs, g, t) {
        lemma_grid_index(g, t.dest_x as int, t.dest_y as int);
    }
}

/// A move empties its source and fills its destination with the moving
/// cell and the source's durability; every other cell stays as it was.
pub proof fn lemma_grid_move_cells(g: GridView, t: GranularIntent, empty: u8, empty_dur: u32, x: int, y: int)
    requires
        grid_wf(g),
        in_grid(g, t.src_x as int, t.src_y as int),
        in_grid(g, t.dest_x as int, t.dest_y as int),
        (t.src_x, t.src_y) != (t.dest_x, t.dest_y),
        in_grid(g, x, y),
    ensures
        x == t.dest_x && y == t.dest_y ==> grid_cell(grid_move(g, t, empty, empty_dur), x, y) == Some(t.cell)
            && grid_move(g, t, empty, empty_dur).dur[grid_index(g, x, y)] == g.dur[grid_index(g, t.src_x as int, t.src_y as int)],
        x == t.src_x && y == t.src_y ==> grid_cell(grid_move(g, t, empty, empty_dur), x, y) == Some(empty),
        !(x == t.dest_x && y == t.dest_y) && !(x == t.src_x && y == t.src_y)
            ==> grid_cell(grid_move(g, t, empty, empty_dur), x, y) == grid_cell(g, x, y),
{
    lemma_grid_index(g, x, y);
    lemma_grid_index(g, t.src_x as int, t.src_y as int);
    lemma_grid_index(g, t.dest_x as int, t.dest_y as int);
    if grid_index(g, x, y) == grid_index(g, t.dest_x as int, t.dest_y as int) {
        lemma_grid_index_injective(g, x, y, t.dest_x as int, t.dest_y as int);
    }
    if grid_index(g, x, y) == grid_index(g, t.src_x as int, t.src_y as int) {
        lemma_grid_index_injective(g, x, y, t.src_x as int, t.src_y as int);
    }
    if grid_index(g, t.src_x as int, t.src_y as int) == grid_index(g, t.dest_x as int, t.dest_y as int) {
        lemma_grid_index_injective(g, t.src_x as int, t.src_y as int, t.dest_x as int, t.dest_y as int);
    }
}

impl PhysicsWorld {
    /// Moves the cell at the source of `t` to its destination when the
    /// destination is passable (see `grid_move`); reports whether it moved.
    pub fn try_move(&mut self, defs: &CellDefs, t: GranularIntent, empty: u8, empty_dur: u32) -> (r: bool)
        requires
            old(self).wf(),
            defs.wf(),
            in_grid(old(self).view(), t.src_x as int, t.src_y as int),
        ensures
            final(self).wf(),
            r == move_taken(defs.table(), old(self).view(), t),
            final(self).view() == grid_step(defs.table(), old(self).view(), t, empty, empty_dur),
    {
        if !self.passable(defs, t.dest_x, t.dest_y) {
            return false;
        }
        let si = self.index_of(t.src_x, t.src_y);
        let di = self.index_of(t.dest_x, t.dest_y);
        let d = self.durability[si];
        self.cells.set(si, empty);
        self.durability.set(si, empty_dur);
        self.cells.set(di, t.cell);
        self.durability.set(di, d);
        true
    }
}

/// What applying planned moves leaves behind: the grid, the frontier of
/// cells worth rescanning, how many moves happened, and the cells whose
/// change is broadcast (source then destination of each move).
pub struct ApplyOutcome {
    pub grid: GridView,
    pub frontier: Set<CandidateCell>,
    pub applied: nat,
    pub effects: Seq<(i32, i32)>,
}

/// Applies the granular moves `ts` in order. A move whose destination is
/// passable at its turn moves the cell and wakes the neighbourhoods of its
/// source and destination; one that is blocked wakes its source's.
pub open spec fn granular_apply(
    defs: Seq<CellSample>,
    g: GridView,
    f: Set<CandidateCell>,
    ts: Seq<GranularIntent>,
    empty: u8,
    empty_dur: u32,
) -> ApplyOutcome
    decreases ts.len(),
{
    if ts.len() == 0 {
        ApplyOutcome { grid: g, frontier: f, applied: 0, effects: Seq::empty() }
    } else {
        let prev = granular_apply(defs, g, f, ts.drop_last(), empty, empty_dur);
        let t = ts.last();
        if move_taken(defs, prev.grid, t) {
            let g2 = grid_move(prev.grid, t, empty, empty_dur);
            ApplyOutcome {
                grid: g2,
                frontier: after_wake(
                    defs,
                    g2,
                    after_wake(defs, g2, prev.frontier, t.src_x as int, t.src_y as int),
                    t.dest_x as int,
                    t.dest_y as int,
                ),
                applied: prev.applied + 1,
                effects: prev.effects.push((t.src_x, t.src_y)).push((t.dest_x, t.dest_y)),
            }
        } else {
            ApplyOutcome {
                grid: prev.grid,
                frontier: after_wake(defs, prev.grid, prev.frontier, t.src_x as int, t.src_y as int),
                applied: prev.applied,
                effects: prev.effects,
            }
        }
    }
}

proof fn lemma_granular_apply_shape(
    defs: Seq<CellSample>,
    g: GridView,
    f: Set<CandidateCell>,
    ts: Seq<GranularIntent>,
    empty: u8,
    empty_dur: u32,
)
    requires
        grid_wf(g),
        sources_in_grid(g, ts),
    ensures
        grid_wf(granular_apply(defs, g, f, ts, empty, empty_dur).grid),
        granular_apply(defs, g, f, ts, empty, empty_dur).grid.width == g.width,
        granular_apply(defs, g, f, ts, empty, empty_dur).grid.height == g.height,
        granular_apply(defs, g, f, ts, empty, empty_dur).applied <= ts.len(),
        granular_apply(defs, g, f, ts, empty, empty_dur).effects.len() == 2 * granular_apply(defs, g, f, ts, empty, empty_dur).applied,
    decreases ts.len(),
{
    if ts.len() > 0 {
        assert(sources_in_grid(g, ts.drop_last())) by {
            assert forall|i: int| 0 <= i < ts.drop_last().len() implies in_grid(g, (#[trigger] ts.drop_last()[i]).src_x as int, ts.drop_last()[i].src_y as int) by {
                assert(ts.drop_last()[i] == ts[i]);
            }
        }
        lemma_granular_apply_shape(defs, g, f, ts.drop_last(), empty, empty_dur);
        let prev = granular_apply(defs, g, f, ts.drop_last(), empty, empty_dur);
        assert(in_grid(g, ts.last().src_x as int, ts.last().src_y as int));
        lemma_grid_step_wf(defs, prev.grid, ts.last(), empty, empty_dur);
    }
}

/// Result of applying the granular moves of one tick.
pub struct GranularApplyResult {
    pub applied: usize,
    pub granular_activated: usize,
    pub effects: Vec<(i32, i32)>,
}

/// Applies the planned granular moves in order (see `granular_apply`);
/// `granular_activated` counts the cells newly marked for rescanning.
pub fn apply_granular_intents(
    world: &mut PhysicsWorld,
    defs: &CellDefs,
    frontier: &mut GranularFrontier,
    intents: &Vec<GranularIntent>,
    empty: u8,
    empty_dur: u32,
) -> (r: GranularApplyResult)
    requires
        old(world).wf(),
        defs.wf(),
        old(frontier).wf(),
        sources_in_grid(old(world).view(), intents@),
    ensures
        final(world).wf(),
        final(frontier).wf(),
        final(world).view() == granular_apply(defs.table(), old(world).view(), old(frontier).cells().to_set(), intents@, empty, empty_dur).grid,
        final(frontier).cells().to_set() == granular_apply(defs.table(), old(world).view(), old(frontier).cells().to_set(), intents@, empty, empty_dur).frontier,
        r.applied == granular_apply(defs.table(), old(world).view(), old(frontier).cells().to_set(), intents@, empty, empty_dur).applied,
        r.effects@ == granular_apply(defs.table(), old(world).view(), old(frontier).cells().to_set(), intents@, empty, empty_dur).effects,
        r.granular_activated == final(frontier).cells().len() - old(frontier).cells().len(),
{
    let ghost g0 = world.view();
    let ghost f0 = frontier.cells().to_set();
    let ghost d = defs.table();
    let start_len = frontier.len();
    let mut applied: usize = 0;
    let mut effects: Vec<(i32, i32)> = Vec::new();
    let mut i: usize = 0;
    while i < intents.len()
        invariant
            defs.wf(),
            d == defs.table(),
            world.wf(),
            frontier.wf(),
            grid_wf(g0),
            sources_in_grid(g0, intents@),
            i <= intents@.len(),
            world.view().width == g0.width,
            world.view().height == g0.height,
            world.view() == granular_apply(d, g0, f0, intents@.take(i as int), empty, empty_dur).grid,
            frontier.cells().to_set() == granular_apply(d, g0, f0, intents@.take(i as int), empty, empty_dur).frontier,
            applied == granular_apply(d, g0, f0, intents@.take(i as int), empty, empty_dur).applied,
            effects@ == granular_apply(d, g0, f0, intents@.take(i as int), empty, empty_dur).effects,
            applied <= i,
            frontier.cells().len() >= start_len,
        decreases intents@.len() - i,
    {
        let t = intents[i];
        proof {
            assert(intents@.take(i as int + 1).drop_last() == intents@.take(i as int));
            assert(intents@.take(i as int + 1).last() == t);
            assert(in_grid(g0, t.src_x as int, t.src_y as int));
        }
        let moved = world.try_move(defs, t, empty, empty_dur);
        activate_neighborhood(frontier, world, defs, t.src_x, t.src_y);
        if moved {
            applied = applied + 1;
            effects.push((t.src_x, t.src_y));
            effects.push((t.dest_x, t.dest_y));
            activate_neighborhood(frontier, world, defs, t.dest_x, t.dest_y);
        }
        i = i + 1;
    }
    proof {
        assert(intents@.take(intents@.len() as int) == intents@);
    }
    let activated = frontier.len() - start_len;
    GranularApplyResult { applied, granular_activated: activated, effects }
}

/// Applies the moves `ts` in order without waking any cell (the sand pass):
/// a move whose destination is passable at its turn moves the cell.
pub open spec fn plain_apply(defs: Seq<CellSample>, g: GridView, ts: Seq<GranularIntent>, empty: u8, empty_dur: u32) -> ApplyOutcome
    decreases ts.len(),
{
    if ts.len() == 0 {
        ApplyOutcome { grid: g, frontier: Set::empty(), applied: 0, effects: Seq::empty() }
    } else {
        let prev = plain_apply(defs, g, ts.drop_last(), empty, empty_dur);
        let t = ts.last();
        if move_taken(defs, prev.grid, t) {
            ApplyOutcome {
                grid: grid_move(prev.grid, t, empty, empty_dur),
                frontier: Set::empty(),
                applied: prev.applied + 1,
                effects: prev.effects.push((t.src_x, t.src_y)).push((t.dest_x, t.dest_y)),
            }
        } else {
            prev
        }
    }
}

proof fn lemma_plain_apply_shape(defs: Seq<CellSample>, g: GridView, ts: Seq<GranularIntent>, empty: u8, empty_dur: u32)
    requires
        grid_wf(g),
        sources_in_grid(g, ts),
    ensures
        grid_wf(plain_apply(defs, g, ts, empty, empty_dur).grid),
        plain_apply(defs, g, ts, empty, empty_dur).grid.width == g.width,
        plain_apply(defs, g, ts, empty, empty_dur).grid.height == g.height,
        plain_apply(defs, g, ts, empty, empty_dur).applied <= ts.len(),
    decreases ts.len(),
{
    if ts.len() > 0 {
        assert(sources_in_grid(g, ts.drop_last())) by {
            assert forall|i: int| 0 <= i < ts.drop_last().len() implies in_grid(g, (#[trigger] ts.drop_last()[i]).src_x as int, ts.drop_last()[i].src_y as int) by {
                assert(ts.drop_last()[i] == ts[i]);
            }
        }
        lemma_plain_apply_shape(defs, g, ts.drop_last(), empty, empty_dur);
        let prev = plain_apply(defs, g, ts.drop_last(), empty, empty_dur);
        assert(in_grid(g, ts.last().src_x as int, ts.last().src_y as int));
        lemma_grid_step_wf(defs, prev.grid, ts.last(), empty, empty_dur);
    }
}

/// Result of applying moves without waking cells.
pub struct MoveApplyResult {
    pub applied: usize,
    pub effects: Vec<(i32, i32)>,
}

/// Applies the planned moves in order (see `plain_apply`).
pub fn apply_moves(world: &mut PhysicsWorld, defs: &CellDefs, moves: &Vec<GranularIntent>, empty: u8, empty_dur: u32) -> (r: MoveApplyResult)
    requires
        old(world).wf(),
        defs.wf(),
        sources_in_grid(old(world).view(), moves@),
    ensures
        final(world).wf(),
        final(world).view() == plain_apply(defs.table(), old(world).view(), moves@, empty, empty_dur).grid,
        r.applied == plain_apply(defs.table(), old(world).view(), moves@, empty, empty_dur).applied,
        r.effects@ == plain_apply(defs.table(), old(world).view(), moves@, empty, empty_dur).effects,
{
    let ghost g0 = world.view();
    let ghost d = defs.table();
    let mut applied: usize = 0;
    let mut effects: Vec<(i32, i32)> = Vec::new();
    let mut i: usize = 0;
    while i < moves.len()
        invariant
            defs.wf(),
            d == defs.table(),
            world.wf(),
            grid_wf(g0),
            sources_in_grid(g0, moves@),
            i <= moves@.len(),
            world.view().width == g0.width,
            world.view().height == g0.height,
            world.view() == plain_apply(d, g0, moves@.take(i as int), empty, empty_dur).grid,
            applied == plain_apply(d, g0, moves@.take(i as int), empty, empty_dur).applied,
            effects@ == plain_apply(d, g0, moves@.take(i as int), empty, empty_dur).effects,
            applied <= i,
        decreases moves@.len() - i,
    {
        let t = moves[i];
        proof {
            assert(moves@.take(i as int + 1).drop_last() == moves@.take(i as int));
            assert(moves@.take(i as int + 1).last() == t);
            assert(in_grid(g0, t.src_x as int, t.src_y as int));
        }
        if world.try_move(defs, t, empty, empty_dur) {
            applied = applied + 1;
            effects.push((t.src_x, t.src_y));
            effects.push((t.dest_x, t.dest_y));
        }
        i = i + 1;
    }
    proof {
        assert(moves@.take(moves@.len() as int) == moves@);
    }
    MoveApplyResult { applied, effects }
}

/// Building infrastructure that falling cells never enter: NOTHING, the
/// golden road, the building door and the polymer road.
pub open spec fn is_infrastructure(c: u8) -> bool {
    c == crate::granular::NOTHING || c == crate::granular::GOLDEN_ROAD || c == crate::granular::BUILDING_DOOR
        || c == crate::granular::POLYMER_ROAD
}

/// The definitions never call infrastructure sand or boulder.
pub open spec fn infrastructure_not_granular(defs: Seq<CellSample>) -> bool {
    forall|c: u8| is_infrastructure(c) ==> !sample_granular(#[trigger] defs[c as int])
}

/// Every move starts from sand or a boulder of grid `g`.
pub open spec fn sources_granular(defs: Seq<CellSample>, g: GridView, ts: Seq<GranularIntent>) -> bool {
    forall|i: int| 0 <= i < ts.len() ==> grid_granular(defs, g, (#[trigger] ts[i]).src_x as int, ts[i].src_y as int)
}

/// A move changes no cell but its source and its destination.
pub proof fn lemma_grid_move_other(g: GridView, t: GranularIntent, empty: u8, empty_dur: u32, x: int, y: int)
    requires
        grid_wf(g),
        in_grid(g, t.src_x as int, t.src_y as int),
        in_grid(g, t.dest_x as int, t.dest_y as int),
        !(x == t.dest_x && y == t.dest_y),
        !(x == t.src_x && y == t.src_y),
    ensures
        grid_cell(grid_move(g, t, empty, empty_dur), x, y) == grid_cell(g, x, y),
{
    if in_grid(g, x, y) {
        lemma_grid_index(g, x, y);
        lemma_grid_index(g, t.src_x as int, t.src_y as int);
        lemma_grid_index(g, t.dest_x as int, t.dest_y as int);
        if grid_index(g, x, y) == grid_index(g, t.dest_x as int, t.dest_y as int) {
            lemma_grid_index_injective(g, x, y, t.dest_x as int, t.dest_y as int);
        }
        if grid_index(g, x, y) == grid_index(g, t.src_x as int, t.src_y as int) {
            lemma_grid_index_injective(g, x, y, t.src_x as int, t.src_y as int);
        }
    }
}

/// Falling cells never eat building infrastructure: whatever granular
/// moves are applied, a cell of golden road, building door, polymer road or
/// NOTHING keeps its id, provided every move starts from sand or a
/// boulder and the definitions do not call infrastructure granular.
pub proof fn lemma_apply_keeps_infrastructure(
    defs: Seq<CellSample>,
    g: GridView,
    f: Set<CandidateCell>,
    ts: Seq<GranularIntent>,
    empty: u8,
    empty_dur: u32,
    x: int,
    y: int,
)
    requires
        grid_wf(g),
        defs_table(defs),
        infrastructure_not_granular(defs),
        sources_granular(defs, g, ts),
        grid_cell(g, x, y) matches Some(c) && is_infrastructure(c),
    ensures
        grid_cell(granular_apply(defs, g, f, ts, empty, empty_dur).grid, x, y) == grid_cell(g, x, y),
        grid_cell(plain_apply(defs, g, ts, empty, empty_dur).grid, x, y) == grid_cell(g, x, y),
    decreases ts.len(),
{
    if ts.len() > 0 {
        let rest = ts.drop_last();
        assert(sources_granular(defs, g, rest)) by {
            assert forall|i: int| 0 <= i < rest.len() implies grid_granular(defs, g, (#[trigger] rest[i]).src_x as int, rest[i].src_y as int) by {
                assert(rest[i] == ts[i]);
            }
        }
        assert(sources_in_grid(g, ts)) by {
            assert forall|i: int| 0 <= i < ts.len() implies in_grid(g, (#[trigger] ts[i]).src_x as int, ts[i].src_y as int) by {
                assert(grid_granular(defs, g, ts[i].src_x as int, ts[i].src_y as int));
            }
        }
        assert(sources_in_grid(g, rest)) by {
            assert forall|i: int| 0 <= i < rest.len() implies in_grid(g, (#[trigger] rest[i]).src_x as int, rest[i].src_y as int) by {
                assert(rest[i] == ts[i]);
            }
        }
        lemma_apply_keeps_infrastructure(defs, g, f, rest, empty, empty_dur, x, y);
        let t = ts.last();
        let c = grid_cell(g, x, y)->Some_0;
        assert(grid_granular(defs, g, t.src_x as int, t.src_y as int));
        assert(!(x == t.src_x && y == t.src_y)) by {
            if x == t.src_x && y == t.src_y {
                assert(!sample_granular(defs[c as int]));
            }
        }
        assert(in_grid(g, t.src_x as int, t.src_y as int));
        let pa = granular_apply(defs, g, f, rest, empty, empty_dur);
        let pp = plain_apply(defs, g, rest, empty, empty_dur);
        lemma_granular_apply_shape(defs, g, f, rest, empty, empty_dur);
        lemma_plain_apply_shape(defs, g, rest, empty, empty_dur);
        assert(defs[c as int].cell == c);
        if move_taken(defs, pa.grid, t) {
            assert(!(x == t.dest_x && y == t.dest_y));
            lemma_grid_move_other(pa.grid, t, empty, empty_dur, x, y);
        }
        if move_taken(defs, pp.grid, t) {
            assert(!(x == t.dest_x && y == t.dest_y));
            lemma_grid_move_other(pp.grid, t, empty, empty_dur, x, y);
        }
    }
}


/// A cell that neither falls nor can be entered by a falling cell (a
/// crystal, rock or golden-road floor, say).
pub open spec fn is_fixed_cell(defs: Seq<CellSample>, c: u8) -> bool {
    !sample_passable(defs[c as int]) && !sample_granular(defs[c as int])
}

/// Falling cells never overwrite a fixed cell: whatever moves are applied,
/// a cell that is neither enterable nor granular keeps its id, provided
/// every move starts from sand or a boulder.
pub proof fn lemma_apply_keeps_fixed_cells(
    defs: Seq<CellSample>,
    g: GridView,
    ts: Seq<GranularIntent>,
    empty: u8,
    empty_dur: u32,
    x: int,
    y: int,
)
    requires
        grid_wf(g),
        defs_table(defs),
        sources_granular(defs, g, ts),
        grid_cell(g, x, y) matches Some(c) && is_fixed_cell(defs, c),
    ensures
        grid_cell(plain_apply(defs, g, ts, empty, empty_dur).grid, x, y) == grid_cell(g, x, y),
    decreases ts.len(),
{
    if ts.len() > 0 {
        let rest = ts.drop_last();
        assert(sources_granular(defs, g, rest)) by {
            assert forall|i: int| 0 <= i < rest.len() implies grid_granular(defs, g, (#[trigger] rest[i]).src_x as int, rest[i].src_y as int) by {
                assert(rest[i] == ts[i]);
            }
        }
        assert(sources_in_grid(g, rest)) by {
            assert forall|i: int| 0 <= i < rest.len() implies in_grid(g, (#[trigger] rest[i]).src_x as int, rest[i].src_y as int) by {
                assert(rest[i] == ts[i]);
                assert(grid_granular(defs, g, ts[i].src_x as int, ts[i].src_y as int));
            }
        }
        lemma_apply_keeps_fixed_cells(defs, g, rest, empty, empty_dur, x, y);
        let t = ts.last();
        let c = grid_cell(g, x, y)->Some_0;
        assert(grid_granular(defs, g, t.src_x as int, t.src_y as int));
        assert(!(x == t.src_x && y == t.src_y));
        assert(in_grid(g, t.src_x as int, t.src_y as int));
        let pp = plain_apply(defs, g, rest, empty, empty_dur);
        lemma_plain_apply_shape(defs, g, rest, empty, empty_dur);
        if move_taken(defs, pp.grid, t) {
            assert(!(x == t.dest_x && y == t.dest_y));
            lemma_grid_move_other(pp.grid, t, empty, empty_dur, x, y);
        }
    }
}


/// The grid after the passes `passes`, each applied in turn with `plain_apply`.
pub open spec fn apply_passes(
    defs: Seq<CellSample>,
    g: GridView,
    passes: Seq<Seq<GranularIntent>>,
    empty: u8,
    empty_dur: u32,
) -> GridView
    decreases passes.len(),
{
    if passes.len() == 0 {
        g
    } else {
        plain_apply(defs, apply_passes(defs, g, passes.drop_last(), empty, empty_dur), passes.last(), empty, empty_dur).grid
    }
}

/// Every pass moves only sand or boulders of the grid it is applied to.
pub open spec fn passes_from_granular(
    defs: Seq<CellSample>,
    g: GridView,
    passes: Seq<Seq<GranularIntent>>,
    empty: u8,
    empty_dur: u32,
) -> bool {
    forall|i: int|
        0 <= i < passes.len() ==> sources_granular(
            defs,
            apply_passes(defs, g, passes.take(i), empty, empty_dur),
            #[trigger] passes[i],
        )
}

/// Over any number of passes, each moving only sand or boulders, a fixed
/// cell keeps its id and the grid keeps its shape.
pub proof fn lemma_passes_keep_fixed_cells(
    defs: Seq<CellSample>,
    g: GridView,
    passes: Seq<Seq<GranularIntent>>,
    empty: u8,
    empty_dur: u32,
    x: int,
    y: int,
)
    requires
        grid_wf(g),
        defs_table(defs),
        passes_from_granular(defs, g, passes, empty, empty_dur),
        grid_cell(g, x, y) matches Some(c) && is_fixed_cell(defs, c),
    ensures
        grid_wf(apply_passes(defs, g, passes, empty, empty_dur)),
        apply_passes(defs, g, passes, empty, empty_dur).width == g.width,
        apply_passes(defs, g, passes, empty, empty_dur).height == g.height,
        grid_cell(apply_passes(defs, g, passes, empty, empty_dur), x, y) == grid_cell(g, x, y),
    decreases passes.len(),
{
    if passes.len() > 0 {
        let rest = passes.drop_last();
        assert forall|i: int| 0 <= i < rest.len() implies sources_granular(
            defs,
            apply_passes(defs, g, rest.take(i), empty, empty_dur),
            #[trigger] rest[i],
        ) by {
            assert(rest.take(i) =~= passes.take(i));
            assert(rest[i] == passes[i]);
        }
        lemma_passes_keep_fixed_cells(defs, g, rest, empty, empty_dur, x, y);
        let prev = apply_passes(defs, g, rest, empty, empty_dur);
        let last = passes.last();
        assert(passes.take(passes.len() - 1) =~= rest);
        assert(sources_granular(defs, prev, passes[passes.len() - 1]));
        assert(sources_in_grid(prev, last)) by {
            assert forall|i: int| 0 <= i < last.len() implies in_grid(prev, (#[trigger] last[i]).src_x as int, last[i].src_y as int) by {
                assert(grid_granular(defs, prev, last[i].src_x as int, last[i].src_y as int));
            }
        }
        lemma_plain_apply_shape(defs, prev, last, empty, empty_dur);
        lemma_apply_keeps_fixed_cells(defs, prev, last, empty, empty_dur, x, y);
    }
}

} // verus!
