//! The record types of the world state and their mathematical views.
//!
//! Pose components and motor commands are IEEE 754 single-precision values;
//! the core never computes on them, so each is carried as its bit pattern
//! (`u32`).  Timestamps come from the host's monotonic clock and are carried
//! as plain `u64` values, as are the opaque session identities the host
//! resolves for every caller.

use vstd::prelude::*;

verus! {

/// A three-component vector; each component is the bit pattern of a
/// single-precision value.
#[derive(Clone, Copy, PartialEq, Eq, Structural, Debug)]
pub struct Vector3 {
    pub x: u32,
    pub y: u32,
    pub z: u32,
}

impl Vector3 {
    /// The zero vector (every component is the bit pattern of 0.0).
    pub fn zero() -> (v: Vector3)
        ensures
            v == (Vector3 { x: 0, y: 0, z: 0 }),
    {
        Vector3 { x: 0, y: 0, z: 0 }
    }
}

/// The world-configuration singleton: a numeric key and the world's name.
pub struct WorldConfig {
    pub id: u32,
    pub world_name: String,
}

/// Mathematical view of [`WorldConfig`].
#[verifier::ext_equal]
pub ghost struct ConfigV {
    pub id: u32,
    pub world_name: Seq<char>,
}

impl View for WorldConfig {
    type V = ConfigV;

    open spec fn view(&self) -> ConfigV {
        ConfigV { id: self.id, world_name: self.world_name@ }
    }
}

/// One connected or dormant participant.
pub struct Player {
    /// Opaque session identity, stable per account; the primary key.
    pub identity: u64,
    /// Small unique display id, assigned monotonically on first creation and
    /// stable across re-registration.
    pub player_id: u32,
    /// Mutable display name, empty until first registration.
    pub name: String,
    pub position: Vector3,
    pub rotation: Vector3,
    /// Timestamp of the last pose or profile mutation.
    pub last_update: u64,
}

/// Mathematical view of [`Player`].
#[verifier::ext_equal]
pub ghost struct PlayerV {
    pub identity: u64,
    pub player_id: u32,
    pub name: Seq<char>,
    pub position: Vector3,
    pub rotation: Vector3,
    pub last_update: u64,
}

impl View for Player {
    type V = PlayerV;

    open spec fn view(&self) -> PlayerV {
        PlayerV {
            identity: self.identity,
            player_id: self.player_id,
            name: self.name@,
            position: self.position,
            rotation: self.rotation,
            last_update: self.last_update,
        }
    }
}

/// A named script owned by exactly one player.
pub struct MicroprocessCode {
    /// Primary key, assigned on creation.
    pub code_id: u32,
    /// The owning player's display id; set at creation, never reassigned.
    pub owner_id: u32,
    /// Script name, unique per owner.
    pub name: String,
    pub file_path: String,
    pub code_content: String,
    pub last_updated: u64,
}

/// Mathematical view of [`MicroprocessCode`].
#[verifier::ext_equal]
pub ghost struct CodeV {
    pub code_id: u32,
    pub owner_id: u32,
    pub name: Seq<char>,
    pub file_path: Seq<char>,
    pub code_content: Seq<char>,
    pub last_updated: u64,
}

impl View for MicroprocessCode {
    type V = CodeV;

    open spec fn view(&self) -> CodeV {
        CodeV {
            code_id: self.code_id,
            owner_id: self.owner_id,
            name: self.name@,
            file_path: self.file_path@,
            code_content: self.code_content@,
            last_updated: self.last_updated,
        }
    }
}

/// The live control and status record for one program.
pub struct MicroprocessState {
    /// Primary key.
    pub state_id: u32,
    /// The program this state belongs to; at most one state per program.
    pub code_id: u32,
    /// Commanded motor speeds, always clamped to [-1.0, 1.0]; bit patterns.
    pub left_motor_speed: u32,
    pub right_motor_speed: u32,
    /// Human-readable status or error text.
    pub error_message: String,
    pub last_updated: u64,
    pub is_running: bool,
}

/// Mathematical view of [`MicroprocessState`].
#[verifier::ext_equal]
pub ghost struct StateV {
    pub state_id: u32,
    pub code_id: u32,
    pub left_motor_speed: u32,
    pub right_motor_speed: u32,
    pub error_message: Seq<char>,
    pub last_updated: u64,
    pub is_running: bool,
}

impl View for MicroprocessState {
    type V = StateV;

    open spec fn view(&self) -> StateV {
        StateV {
            state_id: self.state_id,
            code_id: self.code_id,
            left_motor_speed: self.left_motor_speed,
            right_motor_speed: self.right_motor_speed,
            error_message: self.error_message@,
            last_updated: self.last_updated,
            is_running: self.is_running,
        }
    }
}

/// The record arming the periodic position-replication trigger.
#[derive(Clone, Copy, PartialEq, Eq, Structural, Debug)]
pub struct UpdatePlayerTimer {
    pub scheduled_id: u64,
    /// Fixed firing period of the trigger, in microseconds.
    pub interval_micros: u64,
}

/// The outcome of a command that can be refused.
#[derive(Clone, Copy, PartialEq, Eq, Structural, Debug)]
pub enum WorldError {
    /// A Player, Program or RunState that the operation requires does not
    /// exist.
    NotFound,
    /// The caller is not the owner of the program it tried to control.
    PermissionDenied,
    /// Initialization ran on an already-initialized instance.
    AlreadyInitialized,
}

} // verus!
