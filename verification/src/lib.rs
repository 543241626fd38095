//! Verified core of the OpenMines game server: wire-payload decoding and
//! command routing, session and login state machines, deadline schedules,
//! authentication bookkeeping, the run-time indexes of players, buildings and
//! bot spots, chunk synchronisation, movement, sand and granular physics, and
//! the rules of buildings, clans, skills, inventories and admin commands.

pub mod auth_flow;
pub mod fanout;
pub mod footprint;
pub mod granular;
pub mod granular_tick;
pub mod gun_batch;
pub mod heartbeat;
pub mod ids;
pub mod ingress;
pub mod inventory;
pub mod auth_limit;
pub mod bots_render;
pub mod building_index;
pub mod botspot_index;
pub mod box_pickup;
pub mod charge_fill;
pub mod chat_command;
pub mod chat_sync;
pub mod chunk_sync;
pub mod clans;
pub mod chunks;
pub mod credentials;
pub mod dirty;
pub mod due;
pub mod movement;
pub mod pack_lookup;
pub mod packs;
pub mod physics_world;
pub mod placement;
pub mod player_init;
pub mod presence;
pub mod resp_save;
pub mod sand;
pub mod schedules;
pub mod session;
pub mod session_state;
pub mod skills;
pub mod sorted;
pub mod text;
pub mod ty_command;
pub mod ty_dispatch;
pub mod ty_payload;
pub mod world_load;
