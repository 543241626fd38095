//! Chunk arithmetic: the client's per-chunk `block_pos` key, the chunks a
//! gun scan covers, and the chunks a player sees.
use vstd::prelude::*;
use crate::ids::ChunkPos;

verus! {

/// Cells per chunk side.
pub const CHUNK_SIZE: i32 = 32;

/// Chunks visible in each direction from the player's chunk.
pub const CHUNK_VIEW_RADIUS: i32 = 2;

/// Floor division by the chunk size (`i32::div_euclid(32)`).
pub open spec fn chunk_of(v: int) -> int {
    v / 32
}

/// The client keys the objects of a chunk by `chunk_x + chunk_y * chunks_w`;
/// `None` when that overflows `i32`.
pub open spec fn spec_block_pos(x: int, y: int, chunks_w: int) -> Option<i32> {
    let v = chunk_of(y) * chunks_w + chunk_of(x);
    if i32::MIN <= chunk_of(y) * chunks_w <= i32::MAX && i32::MIN <= v <= i32::MAX {
        Some(v as i32)
    } else {
        None
    }
}

fn div_euclid_32(v: i32) -> (r: i32)
    ensures
        r == chunk_of(v as int),
{
    if v >= 0 {
        v / 32
    } else {
        let a: i64 = 0 - (v as i64);
        let q: i64 = (a + 31) / 32;
        assert(-32 * q <= v < -32 * q + 32);
        assert(v as int / 32 == -q);
        (0 - q) as i32
    }
}

/// The chunk-based `block_pos` of cell `(x, y)` in a world `chunks_w` chunks wide.
pub fn block_pos_from_cell(x: i32, y: i32, chunks_w: i32) -> (r: Option<i32>)
    ensures
        r == spec_block_pos(x as int, y as int, chunks_w as int),
{
    let cx = div_euclid_32(x);
    let cy = div_euclid_32(y);
    assert(-0x8000_0000 * 0x8000_0000 <= (cy as int) * (chunks_w as int) <= 0x8000_0000
        * 0x8000_0000) by (nonlinear_arith)
        requires
            -0x8000_0000 <= cy <= 0x8000_0000,
            -0x8000_0000 <= chunks_w <= 0x8000_0000,
    ;
    let prod = cy as i64 * chunks_w as i64;
    if prod < i32::MIN as i64 || prod > i32::MAX as i64 {
        return None;
    }
    let sum = prod + cx as i64;
    if sum < i32::MIN as i64 || sum > i32::MAX as i64 {
        return None;
    }
    Some(sum as i32)
}

/// `v - 1` saturating at zero.
pub open spec fn sat_dec(v: u32) -> u32 {
    if v == 0 {
        0
    } else {
        (v - 1) as u32
    }
}

/// `v + 1` saturating at `u32::MAX`.
pub open spec fn sat_inc(v: u32) -> u32 {
    if v == u32::MAX {
        v
    } else {
        (v + 1) as u32
    }
}

/// The chunks in rows `lo_y..=hi_y`, each row `lo_x..=hi_x`, row by row.
pub open spec fn chunk_rect(lo_x: u32, hi_x: u32, lo_y: u32, hi_y: u32) -> Seq<ChunkPos> {
    let w = hi_x - lo_x + 1;
    let h = hi_y - lo_y + 1;
    Seq::new((w * h) as nat, |k: int| ChunkPos((lo_x + k % w) as u32, (lo_y + k / w) as u32))
}

/// The chunks whose guns can reach a player in chunk `(cx, cy)`: the 3×3
/// block around it, clipped at the `u32` range, row by row.
pub fn gun_candidate_chunks(cx: u32, cy: u32) -> (r: Vec<ChunkPos>)
    ensures
        r@ == chunk_rect(sat_dec(cx), sat_inc(cx), sat_dec(cy), sat_inc(cy)),
{
    let lo_x = if cx == 0 {
        0
    } else {
        cx - 1
    };
    let hi_x = if cx == u32::MAX {
        cx
    } else {
        cx + 1
    };
    let lo_y = if cy == 0 {
        0
    } else {
        cy - 1
    };
    let hi_y = if cy == u32::MAX {
        cy
    } else {
        cy + 1
    };
    let w: u32 = hi_x - lo_x + 1;
    let h: u32 = hi_y - lo_y + 1;
    let mut chunks: Vec<ChunkPos> = Vec::new();
    let mut dy: u32 = 0;
    while dy < h
        invariant
            1 <= w <= 3,
            1 <= h <= 3,
            w == hi_x - lo_x + 1,
            h == hi_y - lo_y + 1,
            dy <= h,
            chunks@.len() == dy * w,
            forall|k: int|
                0 <= k < chunks@.len() ==> #[trigger] chunks@[k] == ChunkPos(
                    (lo_x + k % (w as int)) as u32,
                    (lo_y + k / (w as int)) as u32,
                ),
        decreases h - dy,
    {
        let mut dx: u32 = 0;
        while dx < w
            invariant
                1 <= w <= 3,
                1 <= h <= 3,
                w == hi_x - lo_x + 1,
                h == hi_y - lo_y + 1,
                dy < h,
                dx <= w,
                chunks@.len() == dy * w + dx,
                forall|k: int|
                    0 <= k < chunks@.len() ==> #[trigger] chunks@[k] == ChunkPos(
                        (lo_x + k % (w as int)) as u32,
                        (lo_y + k / (w as int)) as u32,
                    ),
            decreases w - dx,
        {
            let ghost k = chunks@.len() as int;
            proof {
                assert(k % (w as int) == dx && k / (w as int) == dy) by (nonlinear_arith)
                    requires
                        k == dy * w + dx,
                        0 <= dx < w,
                        0 <= dy,
                ;
            }
            chunks.push(ChunkPos(lo_x + dx, lo_y + dy));
            dx = dx + 1;
        }
        proof {
            assert((dy + 1) * w == dy * w + w) by (nonlinear_arith);
        }
        dy = dy + 1;
    }
    proof {
        assert(chunks@.len() == (w as int) * (h as int)) by (nonlinear_arith)
            requires
                chunks@.len() == dy * w,
                dy == h,
        ;
        let rect = chunk_rect(lo_x, hi_x, lo_y, hi_y);
        assert(rect.len() == chunks@.len());
        assert forall|k: int| 0 <= k < rect.len() implies rect[k] == chunks@[k] by {
            assert(chunks@[k] == ChunkPos(
                (lo_x + k % (w as int)) as u32,
                (lo_y + k / (w as int)) as u32,
            ));
        }
        assert(chunks@ =~= rect);
    }
    chunks
}


/// `u32::cast_signed`: the same bits read as `i32`.
pub open spec fn cast_signed(v: u32) -> int {
    if v > i32::MAX {
        v - 0x1_0000_0000
    } else {
        v as int
    }
}

/// The first `k` of the 25 chunks around `(cx, cy)` (row by row, offsets
/// `-2..=2`) that lie inside a `w × h` chunk world.
pub open spec fn visible_prefix(cx: int, cy: int, w: int, h: int, k: nat) -> Seq<(u32, u32)>
    decreases k,
{
    if k == 0 {
        Seq::empty()
    } else {
        let prev = visible_prefix(cx, cy, w, h, (k - 1) as nat);
        let j = k - 1;
        let nx = cx + j % 5 - CHUNK_VIEW_RADIUS;
        let ny = cy + j / 5 - CHUNK_VIEW_RADIUS;
        if 0 <= nx < w && 0 <= ny < h {
            prev.push((nx as u32, ny as u32))
        } else {
            prev
        }
    }
}

fn cast_signed_exec(v: u32) -> (r: i32)
    ensures
        r == cast_signed(v),
{
    if v > i32::MAX as u32 {
        (v as i64 - 0x1_0000_0000i64) as i32
    } else {
        v as i32
    }
}

/// The chunks a player in chunk `(cx, cy)` sees in a world of
/// `chunks_w × chunks_h` chunks: offsets `-2..=2` in both directions, row
/// by row, those inside the world.
pub fn visible_chunks_around(cx: u32, cy: u32, chunks_w: u32, chunks_h: u32) -> (r: Vec<(u32, u32)>)
    requires
        i32::MIN + CHUNK_VIEW_RADIUS <= cast_signed(cx) <= i32::MAX - CHUNK_VIEW_RADIUS,
        i32::MIN + CHUNK_VIEW_RADIUS <= cast_signed(cy) <= i32::MAX - CHUNK_VIEW_RADIUS,
    ensures
        r@ == visible_prefix(
            cast_signed(cx),
            cast_signed(cy),
            cast_signed(chunks_w),
            cast_signed(chunks_h),
            25,
        ),
{
    let sx = cast_signed_exec(cx);
    let sy = cast_signed_exec(cy);
    let w = cast_signed_exec(chunks_w);
    let h = cast_signed_exec(chunks_h);
    let mut out: Vec<(u32, u32)> = Vec::new();
    let mut k: i32 = 0;
    while k < 25
        invariant
            0 <= k <= 25,
            sx == cast_signed(cx),
            sy == cast_signed(cy),
            w == cast_signed(chunks_w),
            h == cast_signed(chunks_h),
            i32::MIN + CHUNK_VIEW_RADIUS <= sx <= i32::MAX - CHUNK_VIEW_RADIUS,
            i32::MIN + CHUNK_VIEW_RADIUS <= sy <= i32::MAX - CHUNK_VIEW_RADIUS,
            out@ == visible_prefix(sx as int, sy as int, w as int, h as int, k as nat),
        decreases 25 - k,
    {
        let nx = sx + (k % 5 - CHUNK_VIEW_RADIUS);
        let ny = sy + (k / 5 - CHUNK_VIEW_RADIUS);
        if nx >= 0 && nx < w && ny >= 0 && ny < h {
            out.push((nx as u32, ny as u32));
        }
        k = k + 1;
    }
    out
}

/// The chunk a `block_pos` key stands for in a world `chunks_w` chunks wide
/// (a width below one counts as one): `None` for a key before the first row.
pub open spec fn spec_block_chunk(block_pos: i32, chunks_w: i32) -> Option<(u32, u32)> {
    let w: int = if chunks_w < 1 {
        1
    } else {
        chunks_w as int
    };
    let cy = (block_pos as int) / w;
    let cx = (block_pos as int) % w;
    if cy < 0 {
        None
    } else {
        Some((cx as u32, cy as u32))
    }
}

/// Decodes a `block_pos` key back into its chunk.
pub fn block_chunk(block_pos: i32, chunks_w: i32) -> (r: Option<(u32, u32)>)
    ensures
        r == spec_block_chunk(block_pos, chunks_w),
{
    let w: i64 = if chunks_w < 1 {
        1
    } else {
        chunks_w as i64
    };
    let b = block_pos as i64;
    if b >= 0 {
        let cy = b / w;
        let cx = b % w;
        Some((cx as u32, cy as u32))
    } else {
        proof {
            vstd::arithmetic::div_mod::lemma_fundamental_div_mod(b as int, w as int);
            assert((b as int) / (w as int) < 0) by (nonlinear_arith)
                requires
                    w >= 1,
                    b < 0,
                    b == w * ((b as int) / (w as int)) + (b as int) % (w as int),
                    0 <= (b as int) % (w as int) < w,
            ;
        }
        None
    }
}

/// `block_pos` keys decode back into their chunk: for a cell inside a world
/// `chunks_w` chunks wide, the key of its chunk decodes to that chunk.
pub proof fn lemma_block_pos_round_trip(x: i32, y: i32, chunks_w: i32)
    requires
        x >= 0,
        y >= 0,
        chunks_w >= 1,
        chunk_of(x as int) < chunks_w,
        spec_block_pos(x as int, y as int, chunks_w as int) is Some,
    ensures
        spec_block_chunk(spec_block_pos(x as int, y as int, chunks_w as int)->Some_0, chunks_w)
            == Some((chunk_of(x as int) as u32, chunk_of(y as int) as u32)),
{
    let cx = chunk_of(x as int);
    let cy = chunk_of(y as int);
    let b = cy * chunks_w + cx;
    vstd::arithmetic::div_mod::lemma_fundamental_div_mod_converse(b, chunks_w as int, cy, cx);
}

} // verus!
