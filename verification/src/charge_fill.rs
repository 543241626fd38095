//! Charging buildings with crystals: respawns with blue ones, guns with the
//! sixth kind; and the free top-up a running program gives a gun.
use vstd::prelude::*;
use vstd::string::StringExecFns;
use crate::text::{chars_equal_str, push_decimal_i32, spec_decimal, str_chars};

verus! {

/// How much charge a fill button asks for.
#[derive(Clone, Copy, Debug, PartialEq, Eq, Structural)]
pub enum FillRequest {
    /// A fixed number of crystals.
    Fixed(i64),
    /// Enough to fill the building up.
    Max,
}

/// The crystal kind a respawn is charged with.
pub const RESP_FILL_CRYSTAL: usize = 1;

/// The crystal kind a gun is charged with.
pub const GUN_FILL_CRYSTAL: usize = 5;

/// The request behind a fill button: `100`, `1000` or `max`.
pub fn fill_request_for_button(amount: &str) -> (r: Option<FillRequest>)
    ensures
        r == (if amount@ == "100"@ {
            Some(FillRequest::Fixed(100))
        } else if amount@ == "1000"@ {
            Some(FillRequest::Fixed(1000))
        } else if amount@ == "max"@ {
            Some(FillRequest::Max)
        } else {
            None
        }),
{
    let a = str_chars(amount);
    if chars_equal_str(&a, "100") {
        Some(FillRequest::Fixed(100))
    } else if chars_equal_str(&a, "1000") {
        Some(FillRequest::Fixed(1000))
    } else if chars_equal_str(&a, "max") {
        Some(FillRequest::Max)
    } else {
        None
    }
}

/// Which fill buttons of a building's window are active.
#[derive(Clone, Copy, Debug, PartialEq, Eq, Structural)]
pub struct FillButtons {
    /// The `100` button.
    pub small: bool,
    /// The `1000` button.
    pub large: bool,
    /// The `max` button.
    pub max: bool,
}

/// The fill buttons of a respawn's window for a player holding `blue`
/// crystals of its kind: `100` and `1000` when the player has that many,
/// `max` when the player has any.
pub fn resp_fill_buttons(blue: i64) -> (r: FillButtons)
    ensures
        r == (FillButtons { small: blue >= 100, large: blue >= 1000, max: blue > 0 }),
{
    FillButtons { small: blue >= 100, large: blue >= 1000, max: blue > 0 }
}

/// The fill buttons of a gun's window for a player holding `cyan` crystals
/// of its kind: `100` and `1000` when the player has that many; `max` always.
pub fn gun_fill_buttons(cyan: i64) -> (r: FillButtons)
    ensures
        r == (FillButtons { small: cyan >= 100, large: cyan >= 1000, max: true }),
{
    FillButtons { small: cyan >= 100, large: cyan >= 1000, max: true }
}

/// The action of one fill button: `action:amount:x:y` when active, empty
/// otherwise.
pub open spec fn spec_fill_button(on: bool, action: Seq<char>, amount: Seq<char>, x: i32, y: i32) -> Seq<char> {
    if on {
        action + ":"@ + amount + ":"@ + spec_decimal(x as int) + ":"@ + spec_decimal(y as int)
    } else {
        Seq::empty()
    }
}

/// The fill row of a building's window: `percent#charge/max#crystal#` and
/// the `100`, `1000` and `max` button actions, `#`-separated.
pub open spec fn spec_fill_values(
    percent: i32,
    charge: i32,
    max_charge: i32,
    crystal: u8,
    action: Seq<char>,
    b: FillButtons,
    x: i32,
    y: i32,
) -> Seq<char> {
    spec_decimal(percent as int) + "#"@ + spec_decimal(charge as int) + "/"@ + spec_decimal(max_charge as int) + "#"@
        + spec_decimal(crystal as int) + "#"@ + spec_fill_button(b.small, action, "100"@, x, y) + "#"@
        + spec_fill_button(b.large, action, "1000"@, x, y) + "#"@ + spec_fill_button(b.max, action, "max"@, x, y)
}

fn push_fill_button(s: &mut String, on: bool, action: &str, amount: &str, x: i32, y: i32)
    ensures
        final(s)@ == old(s)@ + spec_fill_button(on, action@, amount@, x, y),
{
    if on {
        s.append(action);
        s.append(":");
        s.append(amount);
        s.append(":");
        push_decimal_i32(s, x);
        s.append(":");
        push_decimal_i32(s, y);
        assert(final(s)@ =~= old(s)@ + spec_fill_button(on, action@, amount@, x, y));
    } else {
        assert(old(s)@ + spec_fill_button(on, action@, amount@, x, y) =~= old(s)@);
    }
}

/// Writes the fill row of a building at `(x, y)` whose charge is shown as
/// `percent` (see `spec_fill_values`); `action` names the fill command.
pub fn fill_values(
    percent: i32,
    charge: i32,
    max_charge: i32,
    crystal: u8,
    action: &str,
    buttons: FillButtons,
    x: i32,
    y: i32,
) -> (r: String)
    ensures
        r@ == spec_fill_values(percent, charge, max_charge, crystal, action@, buttons, x, y),
{
    let mut s = String::new();
    push_decimal_i32(&mut s, percent);
    s.append("#");
    push_decimal_i32(&mut s, charge);
    s.append("/");
    push_decimal_i32(&mut s, max_charge);
    s.append("#");
    push_decimal_i32(&mut s, crystal as i32);
    s.append("#");
    push_fill_button(&mut s, buttons.small, action, "100", x, y);
    s.append("#");
    push_fill_button(&mut s, buttons.large, action, "1000", x, y);
    s.append("#");
    push_fill_button(&mut s, buttons.max, action, "max", x, y);
    assert(s@ =~= spec_fill_values(percent, charge, max_charge, crystal, action@, buttons, x, y));
    s
}

/// The fill row of a respawn's owner window, for a player holding `blue`
/// crystals: crystal kind 1, `resp_fill` buttons (see `resp_fill_buttons`).
pub fn resp_fill_values(percent: i32, charge: i32, max_charge: i32, blue: i64, x: i32, y: i32) -> (r: String)
    ensures
        r@ == spec_fill_values(
            percent,
            charge,
            max_charge,
            1,
            "resp_fill"@,
            FillButtons { small: blue >= 100, large: blue >= 1000, max: blue > 0 },
            x,
            y,
        ),
{
    fill_values(percent, charge, max_charge, 1, "resp_fill", resp_fill_buttons(blue), x, y)
}

/// The fill row of a gun's window, for a player holding `cyan` crystals:
/// crystal kind 5, `gun_fill` buttons (see `gun_fill_buttons`).
pub fn gun_fill_values(percent: i32, charge: i32, max_charge: i32, cyan: i64, x: i32, y: i32) -> (r: String)
    ensures
        r@ == spec_fill_values(
            percent,
            charge,
            max_charge,
            5,
            "gun_fill"@,
            FillButtons { small: cyan >= 100, large: cyan >= 1000, max: true },
            x,
            y,
        ),
{
    fill_values(percent, charge, max_charge, 5, "gun_fill", gun_fill_buttons(cyan), x, y)
}

/// A fill that takes place: crystals taken from the player and the
/// building's new charge.
#[derive(Clone, Copy, Debug, PartialEq, Eq, Structural)]
pub struct ChargeFill {
    pub taken: i64,
    pub new_charge: i32,
}

/// What a fill does: nothing when the building is full, nothing is asked
/// for or the player has none of the crystals; otherwise it takes what is
/// asked for (the missing charge for `max`), at most what the player has,
/// and adds it to the charge, which never goes over the maximum.
pub open spec fn spec_charge_fill(
    charge: i32,
    max_charge: i32,
    request: FillRequest,
    available: i64,
) -> Option<ChargeFill> {
    if charge >= max_charge {
        None
    } else {
        let requested: int = match request {
            FillRequest::Fixed(v) => v as int,
            FillRequest::Max => max_charge - charge,
        };
        let take = if requested < available {
            requested
        } else {
            available as int
        };
        if requested <= 0 || take <= 0 {
            None
        } else {
            let add = if take > i32::MAX {
                i32::MAX as int
            } else {
                take
            };
            let sum = if charge + add > i32::MAX {
                i32::MAX as int
            } else {
                charge + add
            };
            Some(
                ChargeFill {
                    taken: take as i64,
                    new_charge: (if sum > max_charge {
                        max_charge as int
                    } else {
                        sum
                    }) as i32,
                },
            )
        }
    }
}

/// Plans a fill (see `spec_charge_fill`).
pub fn plan_charge_fill(charge: i32, max_charge: i32, request: FillRequest, available: i64) -> (r:
    Option<ChargeFill>)
    requires
        request is Max && charge < max_charge ==> max_charge - charge <= i32::MAX,
    ensures
        r == spec_charge_fill(charge, max_charge, request, available),
{
    if charge >= max_charge {
        return None;
    }
    let requested: i64 = match request {
        FillRequest::Fixed(v) => v,
        FillRequest::Max => (max_charge - charge) as i64,
    };
    if requested <= 0 {
        return None;
    }
    let take = if requested < available {
        requested
    } else {
        available
    };
    if take <= 0 {
        return None;
    }
    let add: i32 = if take > i32::MAX as i64 {
        i32::MAX
    } else {
        take as i32
    };
    let wide: i64 = charge as i64 + add as i64;
    let sum: i32 = if wide > i32::MAX as i64 {
        i32::MAX
    } else {
        wide as i32
    };
    let new_charge = if sum > max_charge {
        max_charge
    } else {
        sum
    };
    Some(ChargeFill { taken: take, new_charge })
}

/// A fill never charges a building past its maximum, never takes more
/// crystals than the player has, and adds at most what it takes.
pub proof fn lemma_fill_bounds(charge: i32, max_charge: i32, request: FillRequest, available: i64)
    ensures
        spec_charge_fill(charge, max_charge, request, available) matches Some(f) ==> 0 < f.taken
            <= available && charge < f.new_charge <= max_charge && f.new_charge - charge
            <= f.taken,
{
}

/// A fill happens exactly when the building is not full, the amount asked
/// for (`v` for a fixed request, the missing charge for `max`) is positive
/// and the player holds some of the crystals; it then takes the smaller of
/// what is asked for and what the player holds, and (for a charge that is
/// not negative, or a take that fits an `i32`) the new charge is the old
/// one plus what was taken, capped at the maximum.
pub proof fn lemma_fill_takes_what_is_asked(
    charge: i32,
    max_charge: i32,
    request: FillRequest,
    available: i64,
)
    ensures
        ({
            let requested: int = match request {
                FillRequest::Fixed(v) => v as int,
                FillRequest::Max => max_charge - charge,
            };
            let take: int = if requested <= available {
                requested
            } else {
                available as int
            };
            &&& spec_charge_fill(charge, max_charge, request, available) is Some <==> (charge
                < max_charge && requested > 0 && available > 0)
            &&& spec_charge_fill(charge, max_charge, request, available) matches Some(f) ==> {
                &&& f.taken == take
                &&& (charge >= 0 || take <= i32::MAX) ==> f.new_charge == (if charge + take
                    >= max_charge {
                    max_charge as int
                } else {
                    charge + take
                })
            }
        }),
{
}

/// The free top-up a running program gives a gun: a twentieth of the
/// maximum, at least 10, never past the maximum.
pub open spec fn spec_program_gun_fill(charge: i32, max_charge: i32) -> int {
    let inc = if max_charge / 20 > 10 {
        max_charge / 20
    } else {
        10
    };
    let sum = if charge + inc > i32::MAX {
        i32::MAX as int
    } else {
        charge + inc
    };
    if sum > max_charge {
        max_charge as int
    } else {
        sum
    }
}

pub fn program_gun_fill(charge: i32, max_charge: i32) -> (r: i32)
    ensures
        r == spec_program_gun_fill(charge, max_charge),
{
    let twentieth = max_charge / 20;
    let inc = if twentieth > 10 {
        twentieth
    } else {
        10
    };
    let wide: i64 = charge as i64 + inc as i64;
    let sum: i32 = if wide > i32::MAX as i64 {
        i32::MAX
    } else {
        wide as i32
    };
    if sum > max_charge {
        max_charge
    } else {
        sum
    }
}

} // verus!
