//! Placing, paying for and removing buildings: the decisions between the
//! world lookups and the database writes.
use vstd::prelude::*;
use crate::packs::{PackType, charge_to_crys, shpaak_item_index, spec_shpaak_item_index};
use crate::credentials::random_index;
use crate::text::{chars_equal_str, str_chars};

verus! {

/// The building kind of a one-letter code of the building menu:
/// `R` respawn, `T` teleport, `G` gun, `U` up, `L` storage, `F` crafter,
/// `O` spot, `M` market, `N` gate.
pub open spec fn spec_pack_type_from_code(code: Seq<char>) -> Option<PackType> {
    if code == "R"@ {
        Some(PackType::Resp)
    } else if code == "T"@ {
        Some(PackType::Teleport)
    } else if code == "G"@ {
        Some(PackType::Gun)
    } else if code == "U"@ {
        Some(PackType::Up)
    } else if code == "L"@ {
        Some(PackType::Storage)
    } else if code == "F"@ {
        Some(PackType::Craft)
    } else if code == "O"@ {
        Some(PackType::Spot)
    } else if code == "M"@ {
        Some(PackType::Market)
    } else if code == "N"@ {
        Some(PackType::Gate)
    } else {
        None
    }
}

/// Reads a building menu code.
pub fn pack_type_from_code(code: &str) -> (r: Option<PackType>)
    ensures
        r == spec_pack_type_from_code(code@),
{
    let c = str_chars(code);
    if chars_equal_str(&c, "R") {
        Some(PackType::Resp)
    } else if chars_equal_str(&c, "T") {
        Some(PackType::Teleport)
    } else if chars_equal_str(&c, "G") {
        Some(PackType::Gun)
    } else if chars_equal_str(&c, "U") {
        Some(PackType::Up)
    } else if chars_equal_str(&c, "L") {
        Some(PackType::Storage)
    } else if chars_equal_str(&c, "F") {
        Some(PackType::Craft)
    } else if chars_equal_str(&c, "O") {
        Some(PackType::Spot)
    } else if chars_equal_str(&c, "M") {
        Some(PackType::Market)
    } else if chars_equal_str(&c, "N") {
        Some(PackType::Gate)
    } else {
        None
    }
}

/// Why a paid placement stops before anything is stored.
#[derive(Clone, Copy, Debug, PartialEq, Eq, Structural)]
pub enum PlacementRefusal {
    /// The player's state cannot be read or written.
    StateError,
    /// A gate needs a clan.
    GateNeedsClan,
    /// The price exceeds the player's money.
    NotEnoughMoney,
}

impl PlacementRefusal {
    /// The notice shown for the refusal.
    pub fn message(self) -> (r: &'static str)
        ensures
            r@ == (match self {
                PlacementRefusal::StateError => "Состояние игрока недоступно."@,
                PlacementRefusal::GateNeedsClan => "Для ворот нужен клан"@,
                PlacementRefusal::NotEnoughMoney => "Недостаточно денег"@,
            }),
    {
        match self {
            PlacementRefusal::StateError => "Состояние игрока недоступно.",
            PlacementRefusal::GateNeedsClan => "Для ворот нужен клан",
            PlacementRefusal::NotEnoughMoney => "Недостаточно денег",
        }
    }
}

/// Distance, in cells, between a builder and the origin of the building.
pub const PLACEMENT_DISTANCE: i32 = 3;

/// The origin of a building placed by a player at `(px, py)` facing the
/// unit step `(dx, dy)`: three cells ahead.
pub fn placement_origin(px: i32, py: i32, dx: i32, dy: i32) -> (r: (i32, i32))
    requires
        -1 <= dx <= 1,
        -1 <= dy <= 1,
        i32::MIN <= px + dx * PLACEMENT_DISTANCE <= i32::MAX,
        i32::MIN <= py + dy * PLACEMENT_DISTANCE <= i32::MAX,
    ensures
        r == ((px + dx * PLACEMENT_DISTANCE) as i32, (py + dy * PLACEMENT_DISTANCE) as i32),
{
    (px + dx * PLACEMENT_DISTANCE, py + dy * PLACEMENT_DISTANCE)
}

/// The first check of a placement: the player's state must be readable and
/// a gate needs a clan (`player_clan` is `0` outside any clan).
pub fn placement_precheck(pack_type: PackType, state_ready: bool, player_clan: i32) -> (r: Result<(), PlacementRefusal>)
    ensures
        !state_ready ==> r == Err::<(), PlacementRefusal>(PlacementRefusal::StateError),
        state_ready && pack_type == PackType::Gate && player_clan == 0
            ==> r == Err::<(), PlacementRefusal>(PlacementRefusal::GateNeedsClan),
        state_ready && !(pack_type == PackType::Gate && player_clan == 0) ==> r == Ok::<(), PlacementRefusal>(()),
{
    if !state_ready {
        Err(PlacementRefusal::StateError)
    } else if pack_type == PackType::Gate && player_clan == 0 {
        Err(PlacementRefusal::GateNeedsClan)
    } else {
        Ok(())
    }
}

/// A placement that has been paid for.
#[derive(Clone, Copy, Debug, PartialEq, Eq, Structural)]
pub struct PlacementDebit {
    /// The player's money after paying.
    pub money: i64,
    /// The owner's clan (`0` for none).
    pub owner_clan: i32,
    /// The clan the new building belongs to: a gate takes the owner's clan,
    /// every other building none.
    pub building_clan: i32,
}

/// Paying for a building: the price is taken when the money covers it.
pub fn debit_placement(pack_type: PackType, money: i64, cost: i64, owner_clan: i32) -> (r: Result<PlacementDebit, PlacementRefusal>)
    requires
        money >= cost ==> money - cost <= i64::MAX,
    ensures
        money < cost ==> r == Err::<PlacementDebit, PlacementRefusal>(PlacementRefusal::NotEnoughMoney),
        money >= cost ==> r == Ok::<PlacementDebit, PlacementRefusal>(PlacementDebit {
            money: (money - cost) as i64,
            owner_clan,
            building_clan: if pack_type == PackType::Gate {
                owner_clan
            } else {
                0
            },
        }),
{
    if money < cost {
        return Err(PlacementRefusal::NotEnoughMoney);
    }
    let building_clan = if pack_type == PackType::Gate {
        owner_clan
    } else {
        0
    };
    Ok(PlacementDebit { money: money - cost, owner_clan, building_clan })
}

/// The money given back when the building could not be stored.
pub fn refund_placement(money: i64, cost: i64) -> (r: i64)
    requires
        i64::MIN <= money + cost <= i64::MAX,
    ensures
        r == money + cost,
{
    money + cost
}

/// Why a removal is refused.
#[derive(Clone, Copy, Debug, PartialEq, Eq, Structural)]
pub enum RemovalRefusal {
    NotFound,
    NoRights,
    /// The player does not stand on one of the building's cells.
    NotAtBuilding,
}

impl RemovalRefusal {
    /// The notice shown for the refusal.
    pub fn message(self) -> (r: &'static str)
        ensures
            r@ == (match self {
                RemovalRefusal::NotFound => "Объект не найден"@,
                RemovalRefusal::NoRights => "Нет прав"@,
                RemovalRefusal::NotAtBuilding => "Вы не у объекта"@,
            }),
    {
        match self {
            RemovalRefusal::NotFound => "Объект не найден",
            RemovalRefusal::NoRights => "Нет прав",
            RemovalRefusal::NotAtBuilding => "Вы не у объекта",
        }
    }
}

/// A player removes a building only when it exists, the player owns it
/// or shares its clan, and stands on one of its cells.
pub fn removal_check(found: bool, may_remove: bool, stands_on_it: bool) -> (r: Result<(), RemovalRefusal>)
    ensures
        !found ==> r == Err::<(), RemovalRefusal>(RemovalRefusal::NotFound),
        found && !may_remove ==> r == Err::<(), RemovalRefusal>(RemovalRefusal::NoRights),
        found && may_remove && !stands_on_it ==> r == Err::<(), RemovalRefusal>(RemovalRefusal::NotAtBuilding),
        found && may_remove && stands_on_it ==> r == Ok::<(), RemovalRefusal>(()),
{
    if !found {
        Err(RemovalRefusal::NotFound)
    } else if !may_remove {
        Err(RemovalRefusal::NoRights)
    } else if !stands_on_it {
        Err(RemovalRefusal::NotAtBuilding)
    } else {
        Ok(())
    }
}

/// Sum of a crystal set.
pub open spec fn crystal_total(c: [i64; 6]) -> int {
    c[0] + c[1] + c[2] + c[3] + c[4] + c[5]
}

/// The crystal box a destroyed building leaves: a charged teleport leaves
/// its charge as white crystals, a storage what it held when that is
/// more than nothing; other buildings leave no box.
pub open spec fn spec_destroy_box(pack_type: PackType, charge: i32, stored: Option<[i64; 6]>) -> Option<[i64; 6]> {
    if pack_type == PackType::Teleport && charge > 0 {
        Some([0, 0, 0, 0, charge as i64, 0])
    } else if pack_type == PackType::Storage {
        match stored {
            Some(c) => if crystal_total(c) > 0 {
                Some(c)
            } else {
                None
            },
            None => None,
        }
    } else {
        None
    }
}

/// The crystal box a destroyed building leaves (see `spec_destroy_box`).
pub fn destroy_box_crystals(pack_type: PackType, charge: i32, stored: Option<[i64; 6]>) -> (r: Option<[i64; 6]>)
    requires
        stored matches Some(c) ==> forall|i: int| 0 <= i < 6 ==> 0 <= #[trigger] c[i] <= i64::MAX / 6,
    ensures
        r == spec_destroy_box(pack_type, charge, stored),
{
    if pack_type == PackType::Teleport && charge > 0 {
        return Some([0, 0, 0, 0, charge_to_crys(charge), 0]);
    }
    if pack_type == PackType::Storage {
        if let Some(c) = stored {
            let total = c[0] + c[1] + c[2] + c[3] + c[4] + c[5];
            if total > 0 {
                return Some(c);
            }
        }
    }
    None
}

/// Percent chance that a destroyed building drops its placement item.
pub const SHPAAK_DROP_PCT: u32 = 40;

/// Whether a roll of a hundred-sided die (`1..=100`) drops the item.
pub open spec fn shpaak_roll_drops(roll: int) -> bool {
    roll < SHPAAK_DROP_PCT
}

/// The placement item returned for a destroyed building when the die shows
/// `roll`: the building's item slot when `roll` comes under 40, `None`
/// otherwise or for buildings without an item.
pub fn shpaak_drop_for_roll(pack_type: PackType, roll: u32) -> (r: Option<i32>)
    ensures
        r == (if shpaak_roll_drops(roll as int) {
            spec_shpaak_item_index(pack_type)
        } else {
            None
        }),
{
    match shpaak_item_index(pack_type) {
        None => None,
        Some(item) => {
            if roll < SHPAAK_DROP_PCT {
                Some(item)
            } else {
                None
            }
        },
    }
}

/// The placement item returned to the player who destroyed a building: a
/// hundred-sided die (`1..=100`) is rolled and `shpaak_drop_for_roll`
/// decides; never an item for buildings without one.
pub fn shpaak_drop(pack_type: PackType) -> (r: Option<i32>)
    ensures
        r is Some ==> r == spec_shpaak_item_index(pack_type),
        spec_shpaak_item_index(pack_type) is None ==> r is None,
        exists|roll: int| 1 <= roll <= 100 && r == (if #[trigger] shpaak_roll_drops(roll) {
            spec_shpaak_item_index(pack_type)
        } else {
            None
        }),
{
    let roll = random_index(100) + 1;
    let r = shpaak_drop_for_roll(pack_type, roll as u32);
    assert(shpaak_roll_drops(roll as int) == shpaak_roll_drops(roll as u32 as int));
    r
}

/// The online players whose respawn was the building at `(x, y)`: those of
/// `players` (player, respawn) bound to it, in order.
pub open spec fn spec_bound_to_resp(players: Seq<(i32, Option<(i32, i32)>)>, x: i32, y: i32) -> Seq<i32>
    decreases players.len(),
{
    if players.len() == 0 {
        Seq::empty()
    } else {
        let rest = spec_bound_to_resp(players.drop_last(), x, y);
        if players.last().1 == Some((x, y)) {
            rest.push(players.last().0)
        } else {
            rest
        }
    }
}

/// The players whose respawn binding is cleared when the respawn at
/// `(x, y)` is destroyed.
pub fn bound_to_resp(players: &[(i32, Option<(i32, i32)>)], x: i32, y: i32) -> (r: Vec<i32>)
    ensures
        r@ == spec_bound_to_resp(players@, x, y),
{
    let mut out: Vec<i32> = Vec::new();
    let mut i: usize = 0;
    while i < players.len()
        invariant
            i <= players@.len(),
            out@ == spec_bound_to_resp(players@.take(i as int), x, y),
        decreases players@.len() - i,
    {
        proof {
            assert(players@.take(i as int + 1).drop_last() == players@.take(i as int));
        }
        if players[i].1 == Some((x, y)) {
            out.push(players[i].0);
        }
        i = i + 1;
    }
    proof {
        assert(players@.take(players@.len() as int) == players@);
    }
    out
}


/// The configured stats of a building kind.
#[derive(Clone, Copy, Debug, PartialEq, Eq, Structural)]
pub struct BuildingConfig {
    pub charge: i32,
    pub max_charge: i32,
    pub cost: i64,
    pub hp: i32,
    pub max_hp: i32,
}

/// The stored state a new building starts with.
#[derive(Clone, Debug)]
pub struct BuildingExtra {
    pub charge: i32,
    /// Items stored inside: item id and count.
    pub items_inside: Vec<(i32, i32)>,
    pub max_charge: i32,
    pub cost: i32,
    pub hp: i32,
    pub max_hp: i32,
    pub money_inside: i64,
    pub crystals_inside: [i64; 6],
    pub craft_recipe_id: Option<i32>,
    pub craft_num: i32,
    pub craft_end_ts: i64,
    pub craft_ready: bool,
    pub clanzone: i32,
}

/// Why a building kind's start state cannot be made.
#[derive(Clone, Copy, Debug, PartialEq, Eq, Structural)]
pub enum BuildingExtraError {
    /// The kind has no configuration.
    MissingConfig,
    /// The configured cost does not fit in `i32`.
    CostOverflow,
}

/// The start state of a building of a kind configured as `config`
/// (`None`: the kind has no configuration): its charge, maximum charge,
/// hit points and cost from the configuration, nothing stored inside, no
/// crafting and no clan zone. Fails without a configuration, or when the
/// configured cost does not fit in `i32`.
pub fn building_extra_for_pack_type(config: Option<BuildingConfig>) -> (r: Result<BuildingExtra, BuildingExtraError>)
    ensures
        config is None ==> r == Err::<BuildingExtra, BuildingExtraError>(BuildingExtraError::MissingConfig),
        config matches Some(c) ==> (!(i32::MIN <= c.cost <= i32::MAX) ==> r == Err::<BuildingExtra, BuildingExtraError>(
            BuildingExtraError::CostOverflow,
        )),
        config matches Some(c) ==> (i32::MIN <= c.cost <= i32::MAX ==> (r matches Ok(x) && {
            &&& x.charge == c.charge
            &&& x.max_charge == c.max_charge
            &&& x.cost == c.cost
            &&& x.hp == c.hp
            &&& x.max_hp == c.max_hp
            &&& x.items_inside@.len() == 0
            &&& x.money_inside == 0
            &&& x.crystals_inside@ == seq![0i64, 0i64, 0i64, 0i64, 0i64, 0i64]
            &&& x.craft_recipe_id is None
            &&& x.craft_num == 0
            &&& x.craft_end_ts == 0
            &&& !x.craft_ready
            &&& x.clanzone == 0
        })),
{
    let c = match config {
        None => return Err(BuildingExtraError::MissingConfig),
        Some(c) => c,
    };
    if c.cost < i32::MIN as i64 || c.cost > i32::MAX as i64 {
        return Err(BuildingExtraError::CostOverflow);
    }
    let crystals: [i64; 6] = [0, 0, 0, 0, 0, 0];
    proof {
        assert(crystals@ =~= seq![0i64, 0i64, 0i64, 0i64, 0i64, 0i64]);
    }
    Ok(BuildingExtra {
        charge: c.charge,
        items_inside: Vec::new(),
        max_charge: c.max_charge,
        cost: c.cost as i32,
        hp: c.hp,
        max_hp: c.max_hp,
        money_inside: 0,
        crystals_inside: crystals,
        craft_recipe_id: None,
        craft_num: 0,
        craft_end_ts: 0,
        craft_ready: false,
        clanzone: 0,
    })
}

} // verus!
