//! Buildings ("packs") as the client draws them: the HB overlay byte, the
//! inventory slot a destroyed building drops, and box crystals.
use vstd::prelude::*;

verus! {

/// Building kinds that the wire and the inventory distinguish.
#[derive(Clone, Copy, Debug, PartialEq, Eq, Structural)]
pub enum PackType {
    Teleport,
    Resp,
    Up,
    Market,
    Craft,
    Gun,
    Storage,
    Gate,
    Spot,
}

/// The crafting state of a crafter building.
#[derive(Clone, Copy, Debug, PartialEq, Eq)]
pub struct BuildingCrafting {
    pub recipe_id: Option<i32>,
    pub num: i32,
    pub end_ts: i64,
    pub ready: bool,
}

/// A building in the HB overlay: type code, wire position, clan and the
/// state byte.
#[derive(Clone, Copy, Debug, PartialEq, Eq)]
pub struct PackOverlay {
    pub code: u8,
    pub x: u16,
    pub y: u16,
    pub clan: u8,
    pub off: u8,
}

/// A cell coordinate on the wire: taken modulo `65536`.
pub fn wire_coord(v: i32) -> (r: u16)
    ensures
        r as int == (v as int) % 65536,
{
    if v >= 0 {
        (v % 65536) as u16
    } else {
        let shifted: i32 = v + 2147483647 + 1;
        assert((shifted as int) % 65536 == (v as int) % 65536) by {
            assert(shifted as int == v as int + 32768 * 65536);
        }
        (shifted % 65536) as u16
    }
}

/// A clan id on the wire: clamped to `0..=255`.
pub fn wire_clan(clan_id: i32) -> (r: u8)
    ensures
        r as int == (if clan_id < 0 {
            0
        } else if clan_id > 255 {
            255
        } else {
            clan_id as int
        }),
{
    if clan_id < 0 {
        0
    } else if clan_id > 255 {
        255
    } else {
        clan_id as u8
    }
}

/// The overlay entry of a building with type code `code` at `(x, y)`,
/// owned by clan `clan_id`, with state byte `off`.
pub fn pack_overlay(code: u8, x: i32, y: i32, clan_id: i32, off: u8) -> (r: PackOverlay)
    ensures
        r.code == code,
        r.x as int == (x as int) % 65536,
        r.y as int == (y as int) % 65536,
        r.clan as int == (if clan_id < 0 {
            0
        } else if clan_id > 255 {
            255
        } else {
            clan_id as int
        }),
        r.off == off,
{
    PackOverlay { code, x: wire_coord(x), y: wire_coord(y), clan: wire_clan(clan_id), off }
}

/// The inventory slot of the placement item a destroyed building drops.
pub open spec fn spec_shpaak_item_index(pt: PackType) -> Option<i32> {
    match pt {
        PackType::Teleport => Some(0),
        PackType::Resp => Some(1),
        PackType::Up => Some(2),
        PackType::Market => Some(3),
        PackType::Craft => Some(24),
        PackType::Gun => Some(26),
        PackType::Storage => Some(29),
        _ => None,
    }
}

/// The inventory slot of the placement item a destroyed building drops;
/// `None` for buildings without a drop.
pub fn shpaak_item_index(pt: PackType) -> (r: Option<i32>)
    ensures
        r == spec_shpaak_item_index(pt),
{
    match pt {
        PackType::Teleport => Some(0),
        PackType::Resp => Some(1),
        PackType::Up => Some(2),
        PackType::Market => Some(3),
        PackType::Craft => Some(24),
        PackType::Gun => Some(26),
        PackType::Storage => Some(29),
        _ => None,
    }
}

/// The crystals a box left by a destroyed building holds: its charge, or
/// none for a non-positive charge.
pub fn charge_to_crys(charge: i32) -> (r: i64)
    ensures
        r == (if charge <= 0 {
            0
        } else {
            charge as int
        }),
{
    if charge <= 0 {
        0
    } else {
        charge as i64
    }
}

/// Added to a crafter's overlay byte once its product is ready.
pub const CRAFT_READY_BONUS: i32 = 50;

/// A crafter's product is ready at `now`.
pub open spec fn craft_ready_at(craft: Option<BuildingCrafting>, now: i64) -> bool {
    match craft {
        Some(c) => c.end_ts > 0 && now >= c.end_ts,
        None => false,
    }
}

/// The overlay byte of a crafter whose recipe produces item `result_id`.
pub open spec fn craft_overlay_value(result_id: i32, craft: Option<BuildingCrafting>, now: i64) -> int {
    1 + result_id + if craft_ready_at(craft, now) {
        CRAFT_READY_BONUS as int
    } else {
        0
    }
}

/// The HB overlay state byte. Charge-based buildings show whether they are
/// charged; a crafter with a known recipe shows `1 + product id`, plus 50
/// once ready, and 0 otherwise. `recipe_result_id` is the product item of
/// the crafter's recipe, as the recipe table gives it.
pub open spec fn spec_pack_overlay_off(
    pack_type: PackType,
    charge: i32,
    craft: Option<BuildingCrafting>,
    now: i64,
    recipe_result_id: Option<i32>,
) -> int {
    if pack_type != PackType::Craft {
        if charge > 0 {
            1
        } else {
            0
        }
    } else {
        match craft {
            Some(c) => match (c.recipe_id, recipe_result_id) {
                (Some(_), Some(id)) => craft_overlay_value(id, craft, now),
                _ => 0,
            },
            None => 0,
        }
    }
}

/// The HB overlay state byte of a building (see `spec_pack_overlay_off`).
pub fn pack_overlay_off(
    pack_type: PackType,
    charge: i32,
    craft: Option<&BuildingCrafting>,
    now: i64,
    recipe_result_id: Option<i32>,
) -> (r: u8)
    requires
        0 <= spec_pack_overlay_off(
            pack_type,
            charge,
            match craft {
                Some(c) => Some(*c),
                None => None,
            },
            now,
            recipe_result_id,
        ) <= 255,
    ensures
        r == spec_pack_overlay_off(
            pack_type,
            charge,
            match craft {
                Some(c) => Some(*c),
                None => None,
            },
            now,
            recipe_result_id,
        ),
{
    if pack_type != PackType::Craft {
        return if charge > 0 {
            1
        } else {
            0
        };
    }
    let c = match craft {
        Some(c) => c,
        None => {
            return 0;
        },
    };
    if c.recipe_id.is_none() {
        return 0;
    }
    let id = match recipe_result_id {
        Some(id) => id,
        None => {
            return 0;
        },
    };
    let ready_bonus: i64 = if c.end_ts > 0 && now >= c.end_ts {
        CRAFT_READY_BONUS as i64
    } else {
        0
    };
    (1 + id as i64 + ready_bonus) as u8
}

} // verus!
