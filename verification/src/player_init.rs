//! A player's arrival in the world: reusing or spawning the simulation
//! entity, the health it starts with, and the packets of the initial
//! presentation in the order the client expects them.
use vstd::prelude::*;

verus! {

/// How a connect in the game tick treats the player's simulation entity.
#[derive(Clone, Copy, Debug, PartialEq, Eq, Structural)]
pub enum ConnectPlan {
    /// The registered entity is alive: it is taken over by the new session.
    Reuse,
    /// The registered entity no longer exists: the registration is dropped
    /// and a fresh entity is spawned.
    ForgetAndSpawn,
    /// No entity is registered: a fresh one is spawned.
    Spawn,
}

/// A reconnecting player keeps the entity that is still alive; otherwise a
/// new entity is spawned, after dropping a dead registration.
pub fn connect_plan(registered: bool, alive: bool) -> (r: ConnectPlan)
    ensures
        registered && alive ==> r == ConnectPlan::Reuse,
        registered && !alive ==> r == ConnectPlan::ForgetAndSpawn,
        !registered ==> r == ConnectPlan::Spawn,
{
    if !registered {
        ConnectPlan::Spawn
    } else if alive {
        ConnectPlan::Reuse
    } else {
        ConnectPlan::ForgetAndSpawn
    }
}

/// A spawned player starts with the stored health, or full health when the
/// stored value is not positive.
pub fn initial_health(stored: i32, max_health: i32) -> (r: i32)
    ensures
        r == if stored <= 0 {
            max_health
        } else {
            stored
        },
{
    if stored <= 0 {
        max_health
    } else {
        stored
    }
}

/// The clan icon shown on a robot: the clan id clamped to `0..=65535`
/// (`0` outside any clan).
pub fn clan_icon(clan_id: Option<i32>) -> (r: u16)
    ensures
        r == match clan_id {
            Some(c) => if c < 0 {
                0
            } else if c > 65535 {
                65535
            } else {
                c as int
            },
            None => 0,
        },
{
    match clan_id {
        Some(c) => if c < 0 {
            0
        } else if c > 65535 {
            65535
        } else {
            c as u16
        },
        None => 0,
    }
}

/// One packet of the initial presentation, with the values that decide it;
/// the payloads built from skills, inventory and chat come from the view.
#[derive(Clone, Copy, Debug, PartialEq, Eq, Structural)]
pub enum InitPacket {
    /// The chunk packets computed when the player was placed.
    ChunkPackets,
    AutoDig(bool),
    Aggression(bool),
    Geo,
    Health { health: i32, max_health: i32 },
    BotInfo { x: i32, y: i32 },
    Speed,
    Basket,
    Money { money: i64, creds: i64 },
    Level,
    Skills,
    Inventory,
    Teleport { x: i32, y: i32 },
    Settings,
    ClanShow(i32),
    ClanHide,
    ChatCurrent,
    ChatMessages,
    Config,
    ProgrammatorStatus(bool),
    HandMode(bool),
    /// The player's selected program, opened in the programmator.
    OpenProgram(i32),
    /// Whether the daily bonus can be claimed.
    BonusReady(bool),
}

/// What the initial presentation is built from.
#[derive(Clone, Copy, Debug, PartialEq, Eq, Structural)]
pub struct InitFacts {
    pub auto_dig: bool,
    pub aggression: bool,
    pub health: i32,
    pub max_health: i32,
    pub x: i32,
    pub y: i32,
    pub money: i64,
    pub creds: i64,
    pub clan_id: Option<i32>,
    pub prog_running: bool,
    pub hand_mode: bool,
    pub selected_program: Option<i32>,
    pub bonus_ready: bool,
}

/// The clan packet: shown for a non-zero clan, hidden otherwise.
pub open spec fn clan_packet(clan_id: Option<i32>) -> InitPacket {
    match clan_id {
        Some(c) => if c != 0 {
            InitPacket::ClanShow(c)
        } else {
            InitPacket::ClanHide
        },
        None => InitPacket::ClanHide,
    }
}

/// The packets a player receives on entering the world, in order: chunks,
/// settings flags, geology, health, bot info, speed, crystals, money,
/// level, skills, inventory, the teleport to the saved cell, settings, the
/// clan, the chat, the programmator and the bonus flag.
pub open spec fn spec_init_plan(f: InitFacts) -> Seq<InitPacket> {
    seq![
        InitPacket::ChunkPackets,
        InitPacket::AutoDig(f.auto_dig),
        InitPacket::Aggression(f.aggression),
        InitPacket::Geo,
        InitPacket::Health { health: f.health, max_health: f.max_health },
        InitPacket::BotInfo { x: f.x, y: f.y },
        InitPacket::Speed,
        InitPacket::Basket,
        InitPacket::Money { money: f.money, creds: f.creds },
        InitPacket::Level,
        InitPacket::Skills,
        InitPacket::Inventory,
        InitPacket::Teleport { x: f.x, y: f.y },
        InitPacket::Settings,
        clan_packet(f.clan_id),
        InitPacket::ChatCurrent,
        InitPacket::ChatMessages,
        InitPacket::Config,
        InitPacket::ProgrammatorStatus(f.prog_running),
        InitPacket::HandMode(f.hand_mode),
    ] + match f.selected_program {
        Some(id) => seq![InitPacket::OpenProgram(id)],
        None => Seq::empty(),
    } + seq![InitPacket::BonusReady(f.bonus_ready)]
}

/// The initial presentation's packets, in order (see `spec_init_plan`).
pub fn init_plan(f: InitFacts) -> (r: Vec<InitPacket>)
    ensures
        r@ == spec_init_plan(f),
{
    let clan = match f.clan_id {
        Some(c) => if c != 0 {
            InitPacket::ClanShow(c)
        } else {
            InitPacket::ClanHide
        },
        None => InitPacket::ClanHide,
    };
    let mut v: Vec<InitPacket> = vec![
        InitPacket::ChunkPackets,
        InitPacket::AutoDig(f.auto_dig),
        InitPacket::Aggression(f.aggression),
        InitPacket::Geo,
        InitPacket::Health { health: f.health, max_health: f.max_health },
        InitPacket::BotInfo { x: f.x, y: f.y },
        InitPacket::Speed,
        InitPacket::Basket,
        InitPacket::Money { money: f.money, creds: f.creds },
        InitPacket::Level,
        InitPacket::Skills,
        InitPacket::Inventory,
        InitPacket::Teleport { x: f.x, y: f.y },
        InitPacket::Settings,
        clan,
        InitPacket::ChatCurrent,
        InitPacket::ChatMessages,
        InitPacket::Config,
        InitPacket::ProgrammatorStatus(f.prog_running),
        InitPacket::HandMode(f.hand_mode),
    ];
    if let Some(id) = f.selected_program {
        v.push(InitPacket::OpenProgram(id));
    }
    v.push(InitPacket::BonusReady(f.bonus_ready));
    assert(v@ =~= spec_init_plan(f));
    v
}

/// What a disconnect in the game tick does.
#[derive(Clone, Copy, Debug, PartialEq, Eq, Structural)]
pub enum DisconnectPlan {
    /// The session is no longer the player's current one (the player has
    /// reconnected since): nothing happens.
    Stale,
    /// The player leaves, but the running programmator keeps the entity
    /// in the world without a connection.
    KeepOffline,
    /// The player leaves and the entity is removed.
    Despawn,
}

/// A disconnect only acts for the player's current session; a running
/// programmator keeps the entity alive.
pub fn disconnect_plan(session_current: bool, programmator_running: bool) -> (r: DisconnectPlan)
    ensures
        !session_current ==> r == DisconnectPlan::Stale,
        session_current && programmator_running ==> r == DisconnectPlan::KeepOffline,
        session_current && !programmator_running ==> r == DisconnectPlan::Despawn,
{
    if !session_current {
        DisconnectPlan::Stale
    } else if programmator_running {
        DisconnectPlan::KeepOffline
    } else {
        DisconnectPlan::Despawn
    }
}

} // verus!
