//! Questions asked of the buildings around a cell: which building covers
//! it, whether an enemy gun guards it, and which consumable packs lie in a
//! chunk block.
use vstd::prelude::*;
use crate::chunks::{block_pos_from_cell, spec_block_pos};
use crate::footprint::footprint_has_cell;

verus! {

/// A building as the neighbourhood scans see it: its origin, its footprint
/// as offsets from the origin, and what the gun rules read.
#[derive(Clone, Debug)]
pub struct NearbyPack {
    pub x: i32,
    pub y: i32,
    pub cells: Vec<(i32, i32)>,
    pub is_gun: bool,
    /// Removal of the building is under way; scans skip it.
    pub delete_pending: bool,
    pub charge: i32,
    pub clan_id: i32,
}

/// Cell `(x, y)` is one of the cells of `p`.
pub open spec fn covers(p: NearbyPack, x: int, y: int) -> bool {
    exists|i: int| 0 <= i < p.cells@.len() && p.x + (#[trigger] p.cells@[i]).0 == x && p.y + p.cells@[i].1 == y
}

/// The origin of the first building of `packs` (taken in scan order) one of
/// whose cells is `(x, y)`, or `None` when no building covers the cell.
pub fn find_pack_covering(packs: &[NearbyPack], x: i32, y: i32) -> (r: Option<(i32, i32)>)
    ensures
        r is None <==> forall|i: int| 0 <= i < packs@.len() ==> !covers(#[trigger] packs@[i], x as int, y as int),
        r matches Some(o) ==> exists|i: int|
            0 <= i < packs@.len() && covers(#[trigger] packs@[i], x as int, y as int)
                && o == (packs@[i].x, packs@[i].y)
                && forall|j: int| 0 <= j < i ==> !covers(#[trigger] packs@[j], x as int, y as int),
{
    let mut i: usize = 0;
    while i < packs.len()
        invariant
            i <= packs@.len(),
            forall|j: int| 0 <= j < i ==> !covers(#[trigger] packs@[j], x as int, y as int),
        decreases packs@.len() - i,
    {
        let p = &packs[i];
        if footprint_has_cell(p.x, p.y, &p.cells, x, y) {
            return Some((p.x, p.y));
        }
        i = i + 1;
    }
    None
}

/// Radius, in cells, within which a gun guards.
pub const GUN_RADIUS: i64 = 20;

/// Cell `k` of `p` lies within the gun radius of `(x, y)`.
pub open spec fn cell_in_gun_range(p: NearbyPack, k: int, x: int, y: int) -> bool {
    let dx = p.x + p.cells@[k].0 - x;
    let dy = p.y + p.cells@[k].1 - y;
    dx * dx + dy * dy <= GUN_RADIUS * GUN_RADIUS
}

/// Some cell of the gun `p` lies within the radius of `(x, y)`.
pub open spec fn gun_reaches(p: NearbyPack, x: int, y: int) -> bool {
    exists|k: int| 0 <= k < p.cells@.len() && #[trigger] cell_in_gun_range(p, k, x, y)
}

/// A gun that the scans take into account.
pub open spec fn live_gun(p: NearbyPack) -> bool {
    p.is_gun && !p.delete_pending
}

/// Some live gun reaches `(x, y)`.
pub open spec fn spec_any_gun(packs: Seq<NearbyPack>, x: int, y: int) -> bool {
    exists|i: int| 0 <= i < packs.len() && live_gun(#[trigger] packs[i]) && gun_reaches(packs[i], x, y)
}

/// No charged live gun of another clan reaches `(x, y)`.
pub open spec fn spec_gun_access(packs: Seq<NearbyPack>, x: int, y: int, clan_id: i32) -> bool {
    forall|i: int| 0 <= i < packs.len() && live_gun(#[trigger] packs[i]) && packs[i].charge > 0
        && gun_reaches(packs[i], x, y) ==> packs[i].clan_id == clan_id
}

fn in_gun_range(bx: i32, by: i32, dx: i32, dy: i32, x: i32, y: i32) -> (r: bool)
    ensures
        r == ({
            let ex = bx + dx - x;
            let ey = by + dy - y;
            ex * ex + ey * ey <= GUN_RADIUS * GUN_RADIUS
        }),
{
    let ex: i64 = bx as i64 + dx as i64 - x as i64;
    let ey: i64 = by as i64 + dy as i64 - y as i64;
    if ex < -GUN_RADIUS || ex > GUN_RADIUS || ey < -GUN_RADIUS || ey > GUN_RADIUS {
        assert(ex * ex + ey * ey > GUN_RADIUS * GUN_RADIUS) by (nonlinear_arith)
            requires
                ex < -GUN_RADIUS || ex > GUN_RADIUS || ey < -GUN_RADIUS || ey > GUN_RADIUS,
                GUN_RADIUS == 20,
        ;
        return false;
    }
    assert(0 <= ex * ex <= 400 && 0 <= ey * ey <= 400) by (nonlinear_arith)
        requires
            -20 <= ex <= 20,
            -20 <= ey <= 20,
    ;
    ex * ex + ey * ey <= GUN_RADIUS * GUN_RADIUS
}

/// Whether some cell of `p` lies within the gun radius of `(x, y)`.
fn reaches(p: &NearbyPack, x: i32, y: i32) -> (r: bool)
    ensures
        r == gun_reaches(*p, x as int, y as int),
{
    let mut k: usize = 0;
    while k < p.cells.len()
        invariant
            k <= p.cells@.len(),
            forall|j: int| 0 <= j < k ==> !#[trigger] cell_in_gun_range(*p, j, x as int, y as int),
        decreases p.cells@.len() - k,
    {
        let (dx, dy) = p.cells[k];
        if in_gun_range(p.x, p.y, dx, dy, x, y) {
            assert(cell_in_gun_range(*p, k as int, x as int, y as int));
            return true;
        }
        k = k + 1;
    }
    false
}

/// Gun cover at `(x, y)` for a player of clan `clan_id`, over the buildings
/// of the chunks around: `.0` is access (no charged gun of another clan has
/// a cell within the radius), `.1` whether any gun, charged or not, has one.
pub fn access_gun(packs: &[NearbyPack], x: i32, y: i32, clan_id: i32) -> (r: (bool, bool))
    ensures
        r.0 == spec_gun_access(packs@, x as int, y as int, clan_id),
        r.1 == spec_any_gun(packs@, x as int, y as int),
{
    let mut access = true;
    let mut any_gun = false;
    let mut i: usize = 0;
    while i < packs.len()
        invariant
            i <= packs@.len(),
            access == spec_gun_access(packs@.take(i as int), x as int, y as int, clan_id),
            any_gun == spec_any_gun(packs@.take(i as int), x as int, y as int),
        decreases packs@.len() - i,
    {
        let p = &packs[i];
        let ghost pre = packs@.take(i as int);
        let ghost next = packs@.take(i as int + 1);
        assert(next == pre.push(*p));
        if p.is_gun && !p.delete_pending && reaches(p, x, y) {
            any_gun = true;
            if p.charge > 0 {
                access = access && p.clan_id == clan_id;
            }
            assert(live_gun(next[i as int]));
        }
        proof {
            assert forall|j: int| 0 <= j < i implies #[trigger] next[j] == pre[j] by {}
            if !(p.is_gun && !p.delete_pending && gun_reaches(*p, x as int, y as int)) {
                assert(spec_any_gun(next, x as int, y as int) == spec_any_gun(pre, x as int, y as int)) by {
                    if spec_any_gun(next, x as int, y as int) {
                        let j = choose|j: int| 0 <= j < next.len() && live_gun(#[trigger] next[j]) && gun_reaches(next[j], x as int, y as int);
                        assert(j < i);
                    }
                }
            }
            if !access || spec_gun_access(pre, x as int, y as int, clan_id) {
                if !spec_gun_access(next, x as int, y as int, clan_id) && spec_gun_access(pre, x as int, y as int, clan_id) {
                    let j = choose|j: int| !(0 <= j < next.len() && live_gun(#[trigger] next[j]) && next[j].charge > 0
                        && gun_reaches(next[j], x as int, y as int) ==> next[j].clan_id == clan_id);
                    assert(j == i);
                }
            }
        }
        i = i + 1;
    }
    proof {
        assert(packs@.take(packs@.len() as int) == packs@);
    }
    (access, any_gun)
}

/// A consumable pack lying in the world: cell, type and sprite offset.
pub type ConsumablePack = (i32, i32, u8, u8);

/// The chunk block of a cell, when the cell lies in a world of
/// `width`×`height` cells that is `chunks_w` chunks wide.
pub open spec fn spec_pack_block_pos(x: int, y: int, width: int, height: int, chunks_w: int) -> Option<i32> {
    if 0 <= x < width && 0 <= y < height {
        spec_block_pos(x, y, chunks_w)
    } else {
        None
    }
}

/// The chunk block of cell `(x, y)`: `None` outside the world.
pub fn pack_block_pos(x: i32, y: i32, width: i32, height: i32, chunks_w: i32) -> (r: Option<i32>)
    ensures
        r == spec_pack_block_pos(x as int, y as int, width as int, height as int, chunks_w as int),
{
    if x < 0 || y < 0 || x >= width || y >= height {
        return None;
    }
    block_pos_from_cell(x, y, chunks_w)
}

/// The packs of `packs` lying in chunk block `block_pos`, in order.
pub open spec fn spec_packs_in_block(
    packs: Seq<ConsumablePack>,
    block_pos: i32,
    width: int,
    height: int,
    chunks_w: int,
) -> Seq<ConsumablePack>
    decreases packs.len(),
{
    if packs.len() == 0 {
        Seq::empty()
    } else {
        let rest = spec_packs_in_block(packs.drop_last(), block_pos, width, height, chunks_w);
        let p = packs.last();
        if spec_pack_block_pos(p.0 as int, p.1 as int, width, height, chunks_w) == Some(block_pos) {
            rest.push(p)
        } else {
            rest
        }
    }
}

/// The consumable packs that lie in chunk block `block_pos`.
pub fn consumable_packs_in_block(
    packs: &[ConsumablePack],
    block_pos: i32,
    width: i32,
    height: i32,
    chunks_w: i32,
) -> (r: Vec<ConsumablePack>)
    ensures
        r@ == spec_packs_in_block(packs@, block_pos, width as int, height as int, chunks_w as int),
{
    let mut out: Vec<ConsumablePack> = Vec::new();
    let mut i: usize = 0;
    while i < packs.len()
        invariant
            i <= packs@.len(),
            out@ == spec_packs_in_block(packs@.take(i as int), block_pos, width as int, height as int, chunks_w as int),
        decreases packs@.len() - i,
    {
        proof {
            assert(packs@.take(i as int + 1).drop_last() == packs@.take(i as int));
        }
        let p = packs[i];
        if pack_block_pos(p.0, p.1, width, height, chunks_w) == Some(block_pos) {
            out.push(p);
        }
        i = i + 1;
    }
    proof {
        assert(packs@.take(packs@.len() as int) == packs@);
    }
    out
}

} // verus!
