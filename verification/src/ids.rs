//! Plain identifiers shared by the server's subsystems.
use vstd::prelude::*;

verus! {

/// Persistent player identifier (database row id).
#[derive(Clone, Copy, Debug, PartialEq, Eq, Structural, Hash)]
pub struct PlayerId(pub i32);

/// Identifier of one network session (one incarnation of a connection).
#[derive(Clone, Copy, Debug, PartialEq, Eq, Structural, Hash)]
pub struct SessionId(pub u64);

/// A cell position in world coordinates.
#[derive(Clone, Copy, Debug, PartialEq, Eq, Structural, Hash)]
pub struct WorldPos(pub i32, pub i32);

/// A chunk position (32×32 cells per chunk).
#[derive(Clone, Copy, Debug, PartialEq, Eq, Structural, Hash)]
pub struct ChunkPos(pub u32, pub u32);

/// A simulation entity, identified by its stable bit pattern.
#[derive(Clone, Copy, Debug, PartialEq, Eq, Structural, Hash)]
pub struct EntityId(pub u64);

} // verus!
