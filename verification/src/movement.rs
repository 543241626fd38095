//! Whether a requested player move is taken, refused or turned into a dig,
//! and which way the player faces afterwards.
use vstd::prelude::*;

verus! {

/// A move the client (or the player's program) asks for.
#[derive(Clone, Copy, Debug, PartialEq, Eq, Structural)]
pub struct MoveRequest {
    pub target_x: i32,
    pub target_y: i32,
    pub direction: i32,
    pub programmatic: bool,
}

/// What the world and the player's state say about a requested move.
#[derive(Clone, Copy, Debug, PartialEq, Eq)]
pub struct MoveContext {
    /// Where the player stands.
    pub x: i32,
    pub y: i32,
    /// The player's clan (0 without one).
    pub clan: i32,
    /// A GUI window is open.
    pub window_open: bool,
    /// No program is running, so manual moves are allowed.
    pub manual_control_allowed: bool,
    /// The player's auto-dig setting.
    pub auto_dig: bool,
    /// The target cell lies inside the world.
    pub target_in_world: bool,
    /// The clan owning a gate that covers the target cell, if one does.
    pub gate_clan: Option<i32>,
    /// The target cell is empty.
    pub target_empty: bool,
}

/// Why a move was refused.
#[derive(Clone, Copy, Debug, PartialEq, Eq, Structural)]
pub enum MoveReject {
    WindowOpen,
    InvalidCoord,
    Gate,
    Obstacle,
    Distance,
}

/// The decision on a move.
#[derive(Clone, Copy, Debug, PartialEq, Eq, Structural)]
pub enum MoveDecision {
    /// Dropped without a reply: a manual move while a program runs.
    Ignored,
    /// Refused; a manual move also sends the client back to its cell.
    Rejected { reason: MoveReject, teleport_back: bool },
    /// Refused against a wall with auto-dig on: dig that way; a manual move
    /// also sends the client back to its cell first.
    Autodig { dig_dir: i32, teleport_back: bool },
    /// Taken: the player stands on the target, facing `dir`.
    Moved { dir: i32 },
}

/// The direction a client sends with Ctrl held is shifted by 10.
pub open spec fn spec_plain_direction(direction: i32) -> int {
    if direction > 9 {
        direction - 10
    } else {
        direction as int
    }
}

/// The facing of a step from `(x, y)` to `(tx, ty)`: 1 left, 3 right, 2 up,
/// 0 otherwise.
pub open spec fn spec_step_direction(x: i32, y: i32, tx: i32, ty: i32) -> i32 {
    if x > tx {
        1
    } else if x < tx {
        3
    } else if y > ty {
        2
    } else {
        0
    }
}

/// The target is within reach: closer than 1.2 cells, which for whole cells
/// means the same cell or one step along an axis.
pub open spec fn within_reach(x: i32, y: i32, tx: i32, ty: i32) -> bool {
    (tx - x) * (tx - x) + (ty - y) * (ty - y) <= 1
}

pub open spec fn spec_decide_move(req: MoveRequest, ctx: MoveContext) -> MoveDecision {
    let dir = spec_plain_direction(req.direction);
    let tb = !req.programmatic;
    let (tx, ty) = (req.target_x, req.target_y);
    if !req.programmatic && !ctx.manual_control_allowed {
        MoveDecision::Ignored
    } else if ctx.window_open && !req.programmatic {
        MoveDecision::Rejected { reason: MoveReject::WindowOpen, teleport_back: tb }
    } else if !ctx.target_in_world {
        MoveDecision::Rejected { reason: MoveReject::InvalidCoord, teleport_back: tb }
    } else if ctx.gate_clan matches Some(c) && c != ctx.clan {
        MoveDecision::Rejected { reason: MoveReject::Gate, teleport_back: tb }
    } else if ctx.gate_clan is None && !ctx.target_empty {
        if dir == -1 && ctx.auto_dig {
            MoveDecision::Autodig { dig_dir: spec_step_direction(ctx.x, ctx.y, tx, ty), teleport_back: tb }
        } else {
            MoveDecision::Rejected { reason: MoveReject::Obstacle, teleport_back: tb }
        }
    } else if !within_reach(ctx.x, ctx.y, tx, ty) {
        MoveDecision::Rejected { reason: MoveReject::Distance, teleport_back: tb }
    } else if dir == -1 || ctx.x != tx || ctx.y != ty {
        MoveDecision::Moved { dir: spec_step_direction(ctx.x, ctx.y, tx, ty) }
    } else {
        MoveDecision::Moved { dir: dir as i32 }
    }
}

fn step_direction(x: i32, y: i32, tx: i32, ty: i32) -> (r: i32)
    ensures
        r == spec_step_direction(x, y, tx, ty),
{
    if x > tx {
        1
    } else if x < tx {
        3
    } else if y > ty {
        2
    } else {
        0
    }
}

/// Decides a move. The checks come in a fixed order: a manual move while a
/// program runs is dropped; then an open window, a target outside the
/// world, a gate of another clan, a non-empty cell (with `dir == -1` and
/// auto-dig this digs towards the target, after sending a manual mover
/// back) and a target out of reach
/// refuse it. A taken move faces the way it went, or keeps the sent
/// direction when the player stays in place.
pub fn decide_move(req: MoveRequest, ctx: MoveContext) -> (r: MoveDecision)
    ensures
        r == spec_decide_move(req, ctx),
{
    let dir: i32 = if req.direction > 9 {
        req.direction - 10
    } else {
        req.direction
    };
    let tb = !req.programmatic;
    let tx = req.target_x;
    let ty = req.target_y;
    if !req.programmatic && !ctx.manual_control_allowed {
        return MoveDecision::Ignored;
    }
    if ctx.window_open && !req.programmatic {
        return MoveDecision::Rejected { reason: MoveReject::WindowOpen, teleport_back: tb };
    }
    if !ctx.target_in_world {
        return MoveDecision::Rejected { reason: MoveReject::InvalidCoord, teleport_back: tb };
    }
    match ctx.gate_clan {
        Some(c) => {
            if c != ctx.clan {
                return MoveDecision::Rejected { reason: MoveReject::Gate, teleport_back: tb };
            }
        },
        None => {
            if !ctx.target_empty {
                if dir == -1 && ctx.auto_dig {
                    return MoveDecision::Autodig { dig_dir: step_direction(ctx.x, ctx.y, tx, ty), teleport_back: tb };
                }
                return MoveDecision::Rejected { reason: MoveReject::Obstacle, teleport_back: tb };
            }
        },
    }
    let dx: i64 = tx as i64 - ctx.x as i64;
    let dy: i64 = ty as i64 - ctx.y as i64;
    let reach = -1 <= dx && dx <= 1 && -1 <= dy && dy <= 1 && (dx == 0 || dy == 0);
    assert(reach == within_reach(ctx.x, ctx.y, tx, ty)) by (nonlinear_arith)
        requires
            dx == tx - ctx.x,
            dy == ty - ctx.y,
            reach == (-1 <= dx && dx <= 1 && -1 <= dy && dy <= 1 && (dx == 0 || dy == 0)),
    ;
    if !reach {
        return MoveDecision::Rejected { reason: MoveReject::Distance, teleport_back: tb };
    }
    if dir == -1 || ctx.x != tx || ctx.y != ty {
        MoveDecision::Moved { dir: step_direction(ctx.x, ctx.y, tx, ty) }
    } else {
        MoveDecision::Moved { dir }
    }
}

/// Only manual moves are answered with a teleport back (also before an
/// auto-dig); programmatic moves
/// are never dropped as manual ones; a taken move stays inside the world
/// and goes at most one step.
pub proof fn lemma_move_outcomes(req: MoveRequest, ctx: MoveContext)
    ensures
        spec_decide_move(req, ctx) matches MoveDecision::Rejected { teleport_back, .. }
            ==> teleport_back == !req.programmatic,
        spec_decide_move(req, ctx) matches MoveDecision::Autodig { teleport_back, .. }
            ==> teleport_back == !req.programmatic,
        req.programmatic ==> !(spec_decide_move(req, ctx) is Ignored),
        spec_decide_move(req, ctx) is Moved ==> ctx.target_in_world && within_reach(
            ctx.x,
            ctx.y,
            req.target_x,
            req.target_y,
        ),
        spec_decide_move(req, ctx) is Autodig ==> !ctx.target_empty && ctx.auto_dig,
{
}


/// An open window refuses manual moves only: a programmatic move is never
/// refused for it, and its decision depends neither on whether a window is
/// open nor on whether manual control is allowed. A manual move while
/// manual control is allowed and a window is open is refused for the
/// window, with the client sent back. A programmatic step into a free,
/// ungated neighbouring cell of the world is taken, facing the way it went.
pub proof fn lemma_window_only_stops_manual_moves(
    req: MoveRequest,
    ctx: MoveContext,
    window_open: bool,
    manual_control_allowed: bool,
)
    ensures
        req.programmatic ==> !(spec_decide_move(req, ctx) matches MoveDecision::Rejected {
            reason: MoveReject::WindowOpen,
            ..
        }),
        req.programmatic ==> spec_decide_move(req, ctx) == spec_decide_move(
            req,
            (MoveContext { window_open, manual_control_allowed, ..ctx }),
        ),
        !req.programmatic && ctx.manual_control_allowed && ctx.window_open ==> spec_decide_move(
            req,
            ctx,
        ) == (MoveDecision::Rejected { reason: MoveReject::WindowOpen, teleport_back: true }),
        req.programmatic && ctx.target_in_world && ctx.target_empty && (ctx.gate_clan is None
            || ctx.gate_clan == Some(ctx.clan)) && within_reach(
            ctx.x,
            ctx.y,
            req.target_x,
            req.target_y,
        ) && (ctx.x != req.target_x || ctx.y != req.target_y) ==> spec_decide_move(req, ctx) == (
        MoveDecision::Moved {
            dir: spec_step_direction(ctx.x, ctx.y, req.target_x, req.target_y),
        }),
{
}

/// After a move onto the origin of a building of clan `pack_clan`, the
/// building's window opens when no program is running (`tail == 0`) and
/// the building belongs to no clan or to the player's own clan `clan`.
pub fn opens_pack_after_move(tail: u8, pack_clan: i32, clan: i32) -> (r: bool)
    ensures
        r == (tail == 0 && (pack_clan == 0 || pack_clan == clan)),
{
    tail == 0 && (pack_clan == 0 || pack_clan == clan)
}

} // verus!
