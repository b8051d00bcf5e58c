//! The mathematical model of the world state and of every command.
//!
//! [`WorldV`] is the view of the whole store: the active and dormant player
//! record sets, the program store, the run-state tracker, the configuration
//! singleton and the replication-timer record.  Each command of the library
//! is modeled by a spec function from a world (and the command's inputs) to
//! the successor world and the command's result; the executable commands in
//! [`crate::world`] are verified to implement these functions exactly, and
//! the laws in [`crate::laws`] are proved about them.

use vstd::prelude::*;

use crate::motor::{clamp_motor_spec, motor_clamped, ZERO_BITS};
use crate::records::{CodeV, ConfigV, PlayerV, StateV, UpdatePlayerTimer, Vector3, WorldError};

verus! {

/// No two records share an identity or a display id.
pub open spec fn distinct_players(s: Seq<PlayerV>) -> bool {
    forall|i: int, j: int|
        0 <= i < j < s.len() ==> (#[trigger] s[i]).identity != (#[trigger] s[j]).identity
            && s[i].player_id != s[j].player_id
}

/// No record of `a` shares an identity or a display id with a record of `b`.
pub open spec fn players_disjoint(a: Seq<PlayerV>, b: Seq<PlayerV>) -> bool {
    forall|i: int, j: int|
        0 <= i < a.len() && 0 <= j < b.len() ==> (#[trigger] a[i]).identity != (#[trigger] b[j]).identity
            && a[i].player_id != b[j].player_id
}

/// Every display id was drawn from the monotone counter.
pub open spec fn player_ids_below(s: Seq<PlayerV>, next: u32) -> bool {
    forall|i: int| 0 <= i < s.len() ==> (#[trigger] s[i]).player_id < next
}

/// Program keys are unique, `(owner, name)` is unique, and every key was
/// drawn from the monotone counter.
pub open spec fn programs_ok(ps: Seq<CodeV>, next: u32) -> bool {
    &&& forall|i: int, j: int|
        0 <= i < j < ps.len() ==> (#[trigger] ps[i]).code_id != (#[trigger] ps[j]).code_id
            && !(ps[i].owner_id == ps[j].owner_id && ps[i].name == ps[j].name)
    &&& forall|i: int| 0 <= i < ps.len() ==> (#[trigger] ps[i]).code_id < next
}

/// Some program carries this key.
pub open spec fn has_code(ps: Seq<CodeV>, code_id: u32) -> bool {
    exists|i: int| 0 <= i < ps.len() && (#[trigger] ps[i]).code_id == code_id
}

/// Run-state keys are unique, at most one record per program, every record
/// points at an existing program, and every stored motor command is clamped.
pub open spec fn states_ok(ss: Seq<StateV>, ps: Seq<CodeV>, next: u32) -> bool {
    &&& forall|i: int, j: int|
        0 <= i < j < ss.len() ==> (#[trigger] ss[i]).state_id != (#[trigger] ss[j]).state_id
            && ss[i].code_id != ss[j].code_id
    &&& forall|i: int|
        0 <= i < ss.len() ==> (#[trigger] ss[i]).state_id < next && has_code(ps, ss[i].code_id)
            && motor_clamped(ss[i].left_motor_speed) && motor_clamped(ss[i].right_motor_speed)
}

/// View of the whole world state.
#[verifier::ext_equal]
pub ghost struct WorldV {
    /// Active players, one per connected identity.
    pub players: Seq<PlayerV>,
    /// Dormant players, retained after disconnect for exact restoration.
    pub dormant: Seq<PlayerV>,
    /// The program store.
    pub programs: Seq<CodeV>,
    /// The run-state tracker.
    pub states: Seq<StateV>,
    /// The world-configuration singleton, once initialized.
    pub config: Option<ConfigV>,
    /// The replication-timer record, once initialized.
    pub timer: Option<UpdatePlayerTimer>,
    /// Next display id to assign.
    pub next_player_id: u32,
    /// Next program key to assign.
    pub next_code_id: u32,
    /// Next run-state key to assign.
    pub next_state_id: u32,
}

impl WorldV {
    /// Well-formedness: the record sets satisfy every data-model invariant.
    pub open spec fn wf(self) -> bool {
        &&& distinct_players(self.players)
        &&& distinct_players(self.dormant)
        &&& players_disjoint(self.players, self.dormant)
        &&& player_ids_below(self.players, self.next_player_id)
        &&& player_ids_below(self.dormant, self.next_player_id)
        &&& programs_ok(self.programs, self.next_code_id)
        &&& states_ok(self.states, self.programs, self.next_state_id)
    }

    /// An active record for this identity exists.
    pub open spec fn has_active(self, identity: u64) -> bool {
        exists|i: int| 0 <= i < self.players.len() && (#[trigger] self.players[i]).identity == identity
    }

    /// The index of the active record for this identity.
    pub open spec fn active_at(self, identity: u64) -> int {
        choose|i: int| 0 <= i < self.players.len() && (#[trigger] self.players[i]).identity == identity
    }

    /// A dormant record for this identity exists.
    pub open spec fn has_dormant(self, identity: u64) -> bool {
        exists|i: int| 0 <= i < self.dormant.len() && (#[trigger] self.dormant[i]).identity == identity
    }

    /// The index of the dormant record for this identity.
    pub open spec fn dormant_at(self, identity: u64) -> int {
        choose|i: int| 0 <= i < self.dormant.len() && (#[trigger] self.dormant[i]).identity == identity
    }

    /// A program with this key exists.
    pub open spec fn has_program(self, code_id: u32) -> bool {
        has_code(self.programs, code_id)
    }

    /// The index of the program with this key.
    pub open spec fn program_at(self, code_id: u32) -> int {
        choose|i: int| 0 <= i < self.programs.len() && (#[trigger] self.programs[i]).code_id == code_id
    }

    /// A program with this owner and name exists.
    pub open spec fn has_owned_program(self, owner_id: u32, name: Seq<char>) -> bool {
        exists|i: int|
            0 <= i < self.programs.len() && (#[trigger] self.programs[i]).owner_id == owner_id
                && self.programs[i].name == name
    }

    /// The index of the program with this owner and name.
    pub open spec fn owned_program_at(self, owner_id: u32, name: Seq<char>) -> int {
        choose|i: int|
            0 <= i < self.programs.len() && (#[trigger] self.programs[i]).owner_id == owner_id
                && self.programs[i].name == name
    }

    /// A run state for this program exists.
    pub open spec fn has_state(self, code_id: u32) -> bool {
        exists|i: int| 0 <= i < self.states.len() && (#[trigger] self.states[i]).code_id == code_id
    }

    /// The index of the run state for this program.
    pub open spec fn state_at(self, code_id: u32) -> int {
        choose|i: int| 0 <= i < self.states.len() && (#[trigger] self.states[i]).code_id == code_id
    }

    /// Initialization: create the configuration singleton and arm the
    /// recurring replication trigger (one firing per 100 ms); refuse to run
    /// twice.
    pub open spec fn init_step(self) -> (WorldV, Result<(), WorldError>) {
        if self.config is Some || self.timer is Some {
            (self, Err(WorldError::AlreadyInitialized))
        } else {
            (
                WorldV {
                    config: Some(ConfigV { id: 0, world_name: "Solarville"@ }),
                    timer: Some(UpdatePlayerTimer { scheduled_id: 0, interval_micros: 100000 }),
                    ..self
                },
                Ok(()),
            )
        }
    }

    /// Connection: restore the dormant record unchanged, or create a fresh
    /// player with empty name, zero pose and a newly drawn display id.
    /// Returns the successor world and the player now active.
    pub open spec fn connect_step(self, identity: u64, now: u64) -> (WorldV, PlayerV) {
        if self.has_dormant(identity) {
            let p = self.dormant[self.dormant_at(identity)];
            (
                WorldV {
                    players: self.players.push(p),
                    dormant: self.dormant.remove(self.dormant_at(identity)),
                    ..self
                },
                p,
            )
        } else {
            let p = PlayerV {
                identity,
                player_id: self.next_player_id,
                name: Seq::<char>::empty(),
                position: Vector3 { x: ZERO_BITS, y: ZERO_BITS, z: ZERO_BITS },
                rotation: Vector3 { x: ZERO_BITS, y: ZERO_BITS, z: ZERO_BITS },
                last_update: now,
            };
            (
                WorldV {
                    players: self.players.push(p),
                    next_player_id: (self.next_player_id + 1) as u32,
                    ..self
                },
                p,
            )
        }
    }

    /// Disconnection: move the active record, if any, to the dormant set
    /// verbatim; no error if absent.
    pub open spec fn disconnect_step(self, identity: u64) -> WorldV {
        if self.has_active(identity) {
            let i = self.active_at(identity);
            WorldV {
                players: self.players.remove(i),
                dormant: self.dormant.push(self.players[i]),
                ..self
            }
        } else {
            self
        }
    }

    /// Registration: upsert the caller's record.  An active record is
    /// overwritten in place; a dormant record is reactivated with the new
    /// name and pose but its display id kept; otherwise a fresh player is
    /// created.
    pub open spec fn register_step(
        self,
        identity: u64,
        name: Seq<char>,
        position: Vector3,
        rotation: Vector3,
        now: u64,
    ) -> WorldV {
        if self.has_active(identity) {
            let i = self.active_at(identity);
            WorldV {
                players: self.players.update(
                    i,
                    PlayerV { name, position, rotation, last_update: now, ..self.players[i] },
                ),
                ..self
            }
        } else if self.has_dormant(identity) {
            let i = self.dormant_at(identity);
            WorldV {
                players: self.players.push(
                    PlayerV { name, position, rotation, last_update: now, ..self.dormant[i] },
                ),
                dormant: self.dormant.remove(i),
                ..self
            }
        } else {
            WorldV {
                players: self.players.push(
                    PlayerV {
                        identity,
                        player_id: self.next_player_id,
                        name,
                        position,
                        rotation,
                        last_update: now,
                    },
                ),
                next_player_id: (self.next_player_id + 1) as u32,
                ..self
            }
        }
    }

    /// Pose update: overwrite position, rotation and the update stamp of the
    /// caller's active record; the name is untouched.  Fails with `NotFound`,
    /// mutating nothing, when no active record exists.
    pub open spec fn update_position_step(
        self,
        identity: u64,
        position: Vector3,
        rotation: Vector3,
        now: u64,
    ) -> (WorldV, Result<(), WorldError>) {
        if self.has_active(identity) {
            let i = self.active_at(identity);
            (
                WorldV {
                    players: self.players.update(
                        i,
                        PlayerV { position, rotation, last_update: now, ..self.players[i] },
                    ),
                    ..self
                },
                Ok(()),
            )
        } else {
            (self, Err(WorldError::NotFound))
        }
    }

    /// Code upload: update the caller's program of this name in place and
    /// reset its run state to not-running, or create the program together
    /// with a zeroed run state.  Fails with `NotFound` when the caller has no
    /// active record.
    pub open spec fn upload_step(
        self,
        identity: u64,
        name: Seq<char>,
        file_path: Seq<char>,
        code_content: Seq<char>,
        now: u64,
    ) -> (WorldV, Result<(), WorldError>) {
        if !self.has_active(identity) {
            (self, Err(WorldError::NotFound))
        } else {
            let owner_id = self.players[self.active_at(identity)].player_id;
            if self.has_owned_program(owner_id, name) {
                let i = self.owned_program_at(owner_id, name);
                let code_id = self.programs[i].code_id;
                let programs = self.programs.update(
                    i,
                    CodeV { file_path, code_content, last_updated: now, ..self.programs[i] },
                );
                if self.has_state(code_id) {
                    let j = self.state_at(code_id);
                    (
                        WorldV {
                            programs,
                            states: self.states.update(
                                j,
                                StateV {
                                    is_running: false,
                                    error_message: "code updated, awaiting execution"@,
                                    last_updated: now,
                                    ..self.states[j]
                                },
                            ),
                            ..self
                        },
                        Ok(()),
                    )
                } else {
                    (WorldV { programs, ..self }, Ok(()))
                }
            } else {
                (
                    WorldV {
                        programs: self.programs.push(
                            CodeV {
                                code_id: self.next_code_id,
                                owner_id,
                                name,
                                file_path,
                                code_content,
                                last_updated: now,
                            },
                        ),
                        states: self.states.push(
                            StateV {
                                state_id: self.next_state_id,
                                code_id: self.next_code_id,
                                left_motor_speed: ZERO_BITS,
                                right_motor_speed: ZERO_BITS,
                                error_message: "awaiting execution"@,
                                last_updated: now,
                                is_running: false,
                            },
                        ),
                        next_code_id: (self.next_code_id + 1) as u32,
                        next_state_id: (self.next_state_id + 1) as u32,
                        ..self
                    },
                    Ok(()),
                )
            }
        }
    }

    /// Run-state upsert: clamp both motor commands and overwrite the
    /// program's run state, creating one when absent.  Fails with `NotFound`
    /// when the program does not exist.
    pub open spec fn set_state_step(
        self,
        code_id: u32,
        left_motor_speed: u32,
        right_motor_speed: u32,
        error_message: Seq<char>,
        is_running: bool,
        now: u64,
    ) -> (WorldV, Result<(), WorldError>) {
        if !self.has_program(code_id) {
            (self, Err(WorldError::NotFound))
        } else {
            let left = clamp_motor_spec(left_motor_speed);
            let right = clamp_motor_spec(right_motor_speed);
            if self.has_state(code_id) {
                let j = self.state_at(code_id);
                (
                    WorldV {
                        states: self.states.update(
                            j,
                            StateV {
                                left_motor_speed: left,
                                right_motor_speed: right,
                                error_message,
                                last_updated: now,
                                is_running,
                                ..self.states[j]
                            },
                        ),
                        ..self
                    },
                    Ok(()),
                )
            } else {
                (
                    WorldV {
                        states: self.states.push(
                            StateV {
                                state_id: self.next_state_id,
                                code_id,
                                left_motor_speed: left,
                                right_motor_speed: right,
                                error_message,
                                last_updated: now,
                                is_running,
                            },
                        ),
                        next_state_id: (self.next_state_id + 1) as u32,
                        ..self
                    },
                    Ok(()),
                )
            }
        }
    }

    /// Start: with the program present and the caller its owner, mark the
    /// run state running (motors untouched), creating a zeroed running state
    /// when absent.  Fails with `NotFound` when program or caller is missing
    /// and with `PermissionDenied` for a caller that is not the owner.
    pub open spec fn start_step(self, identity: u64, code_id: u32, now: u64) -> (
        WorldV,
        Result<(), WorldError>,
    ) {
        if !self.has_program(code_id) {
            (self, Err(WorldError::NotFound))
        } else if !self.has_active(identity) {
            (self, Err(WorldError::NotFound))
        } else if self.programs[self.program_at(code_id)].owner_id
            != self.players[self.active_at(identity)].player_id {
            (self, Err(WorldError::PermissionDenied))
        } else if self.has_state(code_id) {
            let j = self.state_at(code_id);
            (
                WorldV {
                    states: self.states.update(
                        j,
                        StateV {
                            is_running: true,
                            error_message: "starting execution"@,
                            last_updated: now,
                            ..self.states[j]
                        },
                    ),
                    ..self
                },
                Ok(()),
            )
        } else {
            (
                WorldV {
                    states: self.states.push(
                        StateV {
                            state_id: self.next_state_id,
                            code_id,
                            left_motor_speed: ZERO_BITS,
                            right_motor_speed: ZERO_BITS,
                            error_message: "starting execution"@,
                            last_updated: now,
                            is_running: true,
                        },
                    ),
                    next_state_id: (self.next_state_id + 1) as u32,
                    ..self
                },
                Ok(()),
            )
        }
    }

    /// Stop: with the program present, the caller its owner and a run state
    /// present, mark it stopped and zero both motors.  Unlike start, stop
    /// does not fabricate a missing run state: it fails with `NotFound`.
    pub open spec fn stop_step(self, identity: u64, code_id: u32, now: u64) -> (
        WorldV,
        Result<(), WorldError>,
    ) {
        if !self.has_program(code_id) {
            (self, Err(WorldError::NotFound))
        } else if !self.has_active(identity) {
            (self, Err(WorldError::NotFound))
        } else if self.programs[self.program_at(code_id)].owner_id
            != self.players[self.active_at(identity)].player_id {
            (self, Err(WorldError::PermissionDenied))
        } else if self.has_state(code_id) {
            let j = self.state_at(code_id);
            (
                WorldV {
                    states: self.states.update(
                        j,
                        StateV {
                            is_running: false,
                            left_motor_speed: ZERO_BITS,
                            right_motor_speed: ZERO_BITS,
                            error_message: "execution stopped"@,
                            last_updated: now,
                            ..self.states[j]
                        },
                    ),
                    ..self
                },
                Ok(()),
            )
        } else {
            (self, Err(WorldError::NotFound))
        }
    }
    /// The world every store starts from: no records, counters at one.
    pub open spec fn initial() -> WorldV {
        WorldV {
            players: Seq::<PlayerV>::empty(),
            dormant: Seq::<PlayerV>::empty(),
            programs: Seq::<CodeV>::empty(),
            states: Seq::<StateV>::empty(),
            config: None,
            timer: None,
            next_player_id: 1,
            next_code_id: 1,
            next_state_id: 1,
        }
    }
}

/// An identity held by the record at index `i` of the active set pins the
/// looked-up index: with distinct identities there is no other match.
pub proof fn lemma_active_at(w: WorldV, identity: u64, i: int)
    requires
        distinct_players(w.players),
        0 <= i < w.players.len(),
        w.players[i].identity == identity,
    ensures
        w.has_active(identity),
        w.active_at(identity) == i,
{
    assert(w.has_active(identity));
    let j = w.active_at(identity);
    assert(0 <= j < w.players.len() && w.players[j].identity == identity);
    if i < j {
        assert(w.players[i].identity != w.players[j].identity);
    }
    if j < i {
        assert(w.players[j].identity != w.players[i].identity);
    }
}

/// As [`lemma_active_at`], for the dormant set.
pub proof fn lemma_dormant_at(w: WorldV, identity: u64, i: int)
    requires
        distinct_players(w.dormant),
        0 <= i < w.dormant.len(),
        w.dormant[i].identity == identity,
    ensures
        w.has_dormant(identity),
        w.dormant_at(identity) == i,
{
    assert(w.has_dormant(identity));
    let j = w.dormant_at(identity);
    assert(0 <= j < w.dormant.len() && w.dormant[j].identity == identity);
    if i < j {
        assert(w.dormant[i].identity != w.dormant[j].identity);
    }
    if j < i {
        assert(w.dormant[j].identity != w.dormant[i].identity);
    }
}

/// A program key found at index `i` pins the looked-up index.
pub proof fn lemma_program_at(w: WorldV, code_id: u32, i: int)
    requires
        w.wf(),
        0 <= i < w.programs.len(),
        w.programs[i].code_id == code_id,
    ensures
        w.has_program(code_id),
        w.program_at(code_id) == i,
{
    assert(w.has_program(code_id));
    let j = w.program_at(code_id);
    assert(0 <= j < w.programs.len() && w.programs[j].code_id == code_id);
    if i < j {
        assert(w.programs[i].code_id != w.programs[j].code_id);
    }
    if j < i {
        assert(w.programs[j].code_id != w.programs[i].code_id);
    }
}

/// An `(owner, name)` pair found at index `i` pins the looked-up index.
pub proof fn lemma_owned_program_at(w: WorldV, owner_id: u32, name: Seq<char>, i: int)
    requires
        w.wf(),
        0 <= i < w.programs.len(),
        w.programs[i].owner_id == owner_id,
        w.programs[i].name == name,
    ensures
        w.has_owned_program(owner_id, name),
        w.owned_program_at(owner_id, name) == i,
{
    assert(w.has_owned_program(owner_id, name));
    let j = w.owned_program_at(owner_id, name);
    assert(0 <= j < w.programs.len() && w.programs[j].owner_id == owner_id && w.programs[j].name
        == name);
    if i < j {
        assert(!(w.programs[i].owner_id == w.programs[j].owner_id && w.programs[i].name
            == w.programs[j].name));
    }
    if j < i {
        assert(!(w.programs[j].owner_id == w.programs[i].owner_id && w.programs[j].name
            == w.programs[i].name));
    }
}

/// A run-state key found at index `i` pins the looked-up index.
pub proof fn lemma_state_at(w: WorldV, code_id: u32, i: int)
    requires
        w.wf(),
        0 <= i < w.states.len(),
        w.states[i].code_id == code_id,
    ensures
        w.has_state(code_id),
        w.state_at(code_id) == i,
{
    assert(w.has_state(code_id));
    let j = w.state_at(code_id);
    assert(0 <= j < w.states.len() && w.states[j].code_id == code_id);
    if i < j {
        assert(w.states[i].code_id != w.states[j].code_id);
    }
    if j < i {
        assert(w.states[j].code_id != w.states[i].code_id);
    }
}

/// Overwriting an active record in place, keeping its identity and display
/// id, preserves well-formedness.
pub proof fn lemma_presence_update_wf(w: WorldV, i: int, p: PlayerV)
    requires
        w.wf(),
        0 <= i < w.players.len(),
        p.identity == w.players[i].identity,
        p.player_id == w.players[i].player_id,
    ensures
        (WorldV { players: w.players.update(i, p), ..w }).wf(),
{
    let ps = w.players.update(i, p);
    assert forall|a: int, b: int| 0 <= a < b < ps.len() implies (#[trigger] ps[a]).identity != (
    #[trigger] ps[b]).identity && ps[a].player_id != ps[b].player_id by {
        assert(w.players[a].identity != w.players[b].identity && w.players[a].player_id
            != w.players[b].player_id);
    }
    assert forall|a: int, b: int|
        0 <= a < ps.len() && 0 <= b < w.dormant.len() implies (#[trigger] ps[a]).identity != (
    #[trigger] w.dormant[b]).identity && ps[a].player_id != w.dormant[b].player_id by {
        assert(w.players[a].identity != w.dormant[b].identity && w.players[a].player_id
            != w.dormant[b].player_id);
    }
    assert forall|a: int| 0 <= a < ps.len() implies (#[trigger] ps[a]).player_id
        < w.next_player_id by {
        assert(w.players[a].player_id < w.next_player_id);
    }
}

/// Creating a player with a never-seen identity and the freshly drawn
/// display id, then advancing the counter, preserves well-formedness.
pub proof fn lemma_presence_push_fresh_wf(w: WorldV, p: PlayerV)
    requires
        w.wf(),
        !w.has_active(p.identity),
        !w.has_dormant(p.identity),
        p.player_id == w.next_player_id,
        w.next_player_id < u32::MAX,
    ensures
        (WorldV {
            players: w.players.push(p),
            next_player_id: (w.next_player_id + 1) as u32,
            ..w
        }).wf(),
{
    let ps = w.players.push(p);
    let next = (w.next_player_id + 1) as u32;
    assert forall|a: int, b: int| 0 <= a < b < ps.len() implies (#[trigger] ps[a]).identity != (
    #[trigger] ps[b]).identity && ps[a].player_id != ps[b].player_id by {
        if b < w.players.len() {
            assert(w.players[a].identity != w.players[b].identity && w.players[a].player_id
                != w.players[b].player_id);
        } else {
            assert(ps[b] == p);
            assert(w.players[a].identity != p.identity);
            assert(w.players[a].player_id < w.next_player_id);
        }
    }
    assert forall|a: int, b: int|
        0 <= a < ps.len() && 0 <= b < w.dormant.len() implies (#[trigger] ps[a]).identity != (
    #[trigger] w.dormant[b]).identity && ps[a].player_id != w.dormant[b].player_id by {
        if a < w.players.len() {
            assert(w.players[a].identity != w.dormant[b].identity && w.players[a].player_id
                != w.dormant[b].player_id);
        } else {
            assert(ps[a] == p);
            assert(w.dormant[b].identity != p.identity);
            assert(w.dormant[b].player_id < w.next_player_id);
        }
    }
    assert forall|a: int| 0 <= a < ps.len() implies (#[trigger] ps[a]).player_id < next by {
        if a < w.players.len() {
            assert(w.players[a].player_id < w.next_player_id);
        }
    }
    assert forall|a: int| 0 <= a < w.dormant.len() implies (#[trigger] w.dormant[a]).player_id
        < next by {
        assert(w.dormant[a].player_id < w.next_player_id);
    }
}

/// Moving the dormant record at index `i` back to the active set — possibly
/// with new non-key fields — preserves well-formedness.
pub proof fn lemma_presence_restore_wf(w: WorldV, i: int, p: PlayerV)
    requires
        w.wf(),
        0 <= i < w.dormant.len(),
        p.identity == w.dormant[i].identity,
        p.player_id == w.dormant[i].player_id,
    ensures
        (WorldV { players: w.players.push(p), dormant: w.dormant.remove(i), ..w }).wf(),
{
    let ps = w.players.push(p);
    let ds = w.dormant.remove(i);
    w.dormant.remove_ensures(i);
    assert forall|a: int, b: int| 0 <= a < b < ps.len() implies (#[trigger] ps[a]).identity != (
    #[trigger] ps[b]).identity && ps[a].player_id != ps[b].player_id by {
        if b < w.players.len() {
            assert(w.players[a].identity != w.players[b].identity && w.players[a].player_id
                != w.players[b].player_id);
        } else {
            assert(ps[b] == p);
            assert(w.players[a].identity != w.dormant[i].identity && w.players[a].player_id
                != w.dormant[i].player_id);
        }
    }
    assert forall|a: int, b: int| 0 <= a < b < ds.len() implies (#[trigger] ds[a]).identity != (
    #[trigger] ds[b]).identity && ds[a].player_id != ds[b].player_id by {
        let a0 = if a < i { a } else { a + 1 };
        let b0 = if b < i { b } else { b + 1 };
        assert(ds[a] == w.dormant[a0] && ds[b] == w.dormant[b0]);
        assert(w.dormant[a0].identity != w.dormant[b0].identity && w.dormant[a0].player_id
            != w.dormant[b0].player_id);
    }
    assert forall|a: int, b: int|
        0 <= a < ps.len() && 0 <= b < ds.len() implies (#[trigger] ps[a]).identity != (
    #[trigger] ds[b]).identity && ps[a].player_id != ds[b].player_id by {
        let b0 = if b < i { b } else { b + 1 };
        assert(ds[b] == w.dormant[b0]);
        if a < w.players.len() {
            assert(w.players[a].identity != w.dormant[b0].identity && w.players[a].player_id
                != w.dormant[b0].player_id);
        } else {
            assert(ps[a] == p);
            if i < b0 {
                assert(w.dormant[i].identity != w.dormant[b0].identity && w.dormant[i].player_id
                    != w.dormant[b0].player_id);
            } else {
                assert(w.dormant[b0].identity != w.dormant[i].identity && w.dormant[b0].player_id
                    != w.dormant[i].player_id);
            }
        }
    }
    assert forall|a: int| 0 <= a < ps.len() implies (#[trigger] ps[a]).player_id
        < w.next_player_id by {
        if a < w.players.len() {
            assert(w.players[a].player_id < w.next_player_id);
        } else {
            assert(w.dormant[i].player_id < w.next_player_id);
        }
    }
    assert forall|a: int| 0 <= a < ds.len() implies (#[trigger] ds[a]).player_id
        < w.next_player_id by {
        let a0 = if a < i { a } else { a + 1 };
        assert(ds[a] == w.dormant[a0]);
        assert(w.dormant[a0].player_id < w.next_player_id);
    }
}

/// Moving the active record at index `i` to the dormant set preserves
/// well-formedness.
pub proof fn lemma_presence_retire_wf(w: WorldV, i: int)
    requires
        w.wf(),
        0 <= i < w.players.len(),
    ensures
        (WorldV {
            players: w.players.remove(i),
            dormant: w.dormant.push(w.players[i]),
            ..w
        }).wf(),
{
    let ps = w.players.remove(i);
    let ds = w.dormant.push(w.players[i]);
    w.players.remove_ensures(i);
    assert forall|a: int, b: int| 0 <= a < b < ps.len() implies (#[trigger] ps[a]).identity != (
    #[trigger] ps[b]).identity && ps[a].player_id != ps[b].player_id by {
        let a0 = if a < i { a } else { a + 1 };
        let b0 = if b < i { b } else { b + 1 };
        assert(ps[a] == w.players[a0] && ps[b] == w.players[b0]);
        assert(w.players[a0].identity != w.players[b0].identity && w.players[a0].player_id
            != w.players[b0].player_id);
    }
    assert forall|a: int, b: int| 0 <= a < b < ds.len() implies (#[trigger] ds[a]).identity != (
    #[trigger] ds[b]).identity && ds[a].player_id != ds[b].player_id by {
        if b < w.dormant.len() {
            assert(w.dormant[a].identity != w.dormant[b].identity && w.dormant[a].player_id
                != w.dormant[b].player_id);
        } else {
            assert(ds[b] == w.players[i]);
            assert(w.players[i].identity != w.dormant[a].identity && w.players[i].player_id
                != w.dormant[a].player_id);
        }
    }
    assert forall|a: int, b: int|
        0 <= a < ps.len() && 0 <= b < ds.len() implies (#[trigger] ps[a]).identity != (
    #[trigger] ds[b]).identity && ps[a].player_id != ds[b].player_id by {
        let a0 = if a < i { a } else { a + 1 };
        assert(ps[a] == w.players[a0]);
        if b < w.dormant.len() {
            assert(w.players[a0].identity != w.dormant[b].identity && w.players[a0].player_id
                != w.dormant[b].player_id);
        } else {
            assert(ds[b] == w.players[i]);
            if a0 < i {
                assert(w.players[a0].identity != w.players[i].identity && w.players[a0].player_id
                    != w.players[i].player_id);
            } else {
                assert(w.players[i].identity != w.players[a0].identity && w.players[i].player_id
                    != w.players[a0].player_id);
            }
        }
    }
    assert forall|a: int| 0 <= a < ps.len() implies (#[trigger] ps[a]).player_id
        < w.next_player_id by {
        let a0 = if a < i { a } else { a + 1 };
        assert(ps[a] == w.players[a0]);
        assert(w.players[a0].player_id < w.next_player_id);
    }
    assert forall|a: int| 0 <= a < ds.len() implies (#[trigger] ds[a]).player_id
        < w.next_player_id by {
        if a < w.dormant.len() {
            assert(w.dormant[a].player_id < w.next_player_id);
        } else {
            assert(w.players[i].player_id < w.next_player_id);
        }
    }
}

/// Overwriting a program's payload in place, keeping its key, owner and
/// name, preserves well-formedness.
pub proof fn lemma_program_update_wf(w: WorldV, i: int, c: CodeV)
    requires
        w.wf(),
        0 <= i < w.programs.len(),
        c.code_id == w.programs[i].code_id,
        c.owner_id == w.programs[i].owner_id,
        c.name == w.programs[i].name,
    ensures
        (WorldV { programs: w.programs.update(i, c), ..w }).wf(),
{
    let ps = w.programs.update(i, c);
    assert forall|a: int, b: int| 0 <= a < b < ps.len() implies (#[trigger] ps[a]).code_id != (
    #[trigger] ps[b]).code_id && !(ps[a].owner_id == ps[b].owner_id && ps[a].name
        == ps[b].name) by {
        assert(w.programs[a].code_id != w.programs[b].code_id && !(w.programs[a].owner_id
            == w.programs[b].owner_id && w.programs[a].name == w.programs[b].name));
    }
    assert forall|a: int| 0 <= a < ps.len() implies (#[trigger] ps[a]).code_id
        < w.next_code_id by {
        assert(w.programs[a].code_id < w.next_code_id);
    }
    assert forall|k: int| 0 <= k < w.states.len() implies has_code(
        ps,
        (#[trigger] w.states[k]).code_id,
    ) by {
        assert(has_code(w.programs, w.states[k].code_id));
        let m = choose|m: int|
            0 <= m < w.programs.len() && (#[trigger] w.programs[m]).code_id
                == w.states[k].code_id;
        assert(ps[m].code_id == w.states[k].code_id);
    }
}

/// Overwriting a run state in place, keeping its key and program, with both
/// motor fields clamped, preserves well-formedness.
pub proof fn lemma_state_update_wf(w: WorldV, j: int, s: StateV)
    requires
        w.wf(),
        0 <= j < w.states.len(),
        s.state_id == w.states[j].state_id,
        s.code_id == w.states[j].code_id,
        motor_clamped(s.left_motor_speed),
        motor_clamped(s.right_motor_speed),
    ensures
        (WorldV { states: w.states.update(j, s), ..w }).wf(),
{
    let ss = w.states.update(j, s);
    assert forall|a: int, b: int| 0 <= a < b < ss.len() implies (#[trigger] ss[a]).state_id != (
    #[trigger] ss[b]).state_id && ss[a].code_id != ss[b].code_id by {
        assert(w.states[a].state_id != w.states[b].state_id && w.states[a].code_id
            != w.states[b].code_id);
    }
    assert forall|a: int|
        0 <= a < ss.len() implies (#[trigger] ss[a]).state_id < w.next_state_id && has_code(
        w.programs,
        ss[a].code_id,
    ) && motor_clamped(ss[a].left_motor_speed) && motor_clamped(ss[a].right_motor_speed) by {
        assert(w.states[a].state_id < w.next_state_id);
        assert(has_code(w.programs, w.states[a].code_id));
        assert(motor_clamped(w.states[a].left_motor_speed) && motor_clamped(
            w.states[a].right_motor_speed,
        ));
    }
}

/// Creating the run state of a program that has none, under the freshly
/// drawn key and with clamped motors, preserves well-formedness.
pub proof fn lemma_state_push_wf(w: WorldV, s: StateV)
    requires
        w.wf(),
        !w.has_state(s.code_id),
        has_code(w.programs, s.code_id),
        s.state_id == w.next_state_id,
        w.next_state_id < u32::MAX,
        motor_clamped(s.left_motor_speed),
        motor_clamped(s.right_motor_speed),
    ensures
        (WorldV {
            states: w.states.push(s),
            next_state_id: (w.next_state_id + 1) as u32,
            ..w
        }).wf(),
{
    let ss = w.states.push(s);
    let next = (w.next_state_id + 1) as u32;
    assert forall|a: int, b: int| 0 <= a < b < ss.len() implies (#[trigger] ss[a]).state_id != (
    #[trigger] ss[b]).state_id && ss[a].code_id != ss[b].code_id by {
        if b < w.states.len() {
            assert(w.states[a].state_id != w.states[b].state_id && w.states[a].code_id
                != w.states[b].code_id);
        } else {
            assert(ss[b] == s);
            assert(w.states[a].state_id < w.next_state_id);
            assert(w.states[a].code_id != s.code_id);
        }
    }
    assert forall|a: int|
        0 <= a < ss.len() implies (#[trigger] ss[a]).state_id < next && has_code(
        w.programs,
        ss[a].code_id,
    ) && motor_clamped(ss[a].left_motor_speed) && motor_clamped(ss[a].right_motor_speed) by {
        if a < w.states.len() {
            assert(w.states[a].state_id < w.next_state_id);
            assert(has_code(w.programs, w.states[a].code_id));
            assert(motor_clamped(w.states[a].left_motor_speed) && motor_clamped(
                w.states[a].right_motor_speed,
            ));
        } else {
            assert(ss[a] == s);
        }
    }
}

/// Creating a program under the freshly drawn key, together with its zeroed
/// run state, preserves well-formedness.
pub proof fn lemma_upload_insert_wf(w: WorldV, c: CodeV, s: StateV)
    requires
        w.wf(),
        !w.has_owned_program(c.owner_id, c.name),
        c.code_id == w.next_code_id,
        w.next_code_id < u32::MAX,
        s.state_id == w.next_state_id,
        w.next_state_id < u32::MAX,
        s.code_id == c.code_id,
        motor_clamped(s.left_motor_speed),
        motor_clamped(s.right_motor_speed),
    ensures
        (WorldV {
            programs: w.programs.push(c),
            states: w.states.push(s),
            next_code_id: (w.next_code_id + 1) as u32,
            next_state_id: (w.next_state_id + 1) as u32,
            ..w
        }).wf(),
{
    let ps = w.programs.push(c);
    let ss = w.states.push(s);
    assert forall|a: int, b: int| 0 <= a < b < ps.len() implies (#[trigger] ps[a]).code_id != (
    #[trigger] ps[b]).code_id && !(ps[a].owner_id == ps[b].owner_id && ps[a].name
        == ps[b].name) by {
        if b < w.programs.len() {
            assert(w.programs[a].code_id != w.programs[b].code_id && !(w.programs[a].owner_id
                == w.programs[b].owner_id && w.programs[a].name == w.programs[b].name));
        } else {
            assert(ps[b] == c);
            assert(w.programs[a].code_id < w.next_code_id);
            assert(!(w.programs[a].owner_id == c.owner_id && w.programs[a].name == c.name));
        }
    }
    assert forall|a: int| 0 <= a < ps.len() implies (#[trigger] ps[a]).code_id < (w.next_code_id
        + 1) as u32 by {
        if a < w.programs.len() {
            assert(w.programs[a].code_id < w.next_code_id);
        }
    }
    assert forall|a: int, b: int| 0 <= a < b < ss.len() implies (#[trigger] ss[a]).state_id != (
    #[trigger] ss[b]).state_id && ss[a].code_id != ss[b].code_id by {
        if b < w.states.len() {
            assert(w.states[a].state_id != w.states[b].state_id && w.states[a].code_id
                != w.states[b].code_id);
        } else {
            assert(ss[b] == s);
            assert(w.states[a].state_id < w.next_state_id);
            assert(has_code(w.programs, w.states[a].code_id));
            let m = choose|m: int|
                0 <= m < w.programs.len() && (#[trigger] w.programs[m]).code_id
                    == w.states[a].code_id;
            assert(w.programs[m].code_id < w.next_code_id);
        }
    }
    assert forall|a: int|
        0 <= a < ss.len() implies (#[trigger] ss[a]).state_id < (w.next_state_id + 1) as u32
        && has_code(ps, ss[a].code_id) && motor_clamped(ss[a].left_motor_speed) && motor_clamped(
        ss[a].right_motor_speed,
    ) by {
        if a < w.states.len() {
            assert(w.states[a].state_id < w.next_state_id);
            assert(has_code(w.programs, w.states[a].code_id));
            let m = choose|m: int|
                0 <= m < w.programs.len() && (#[trigger] w.programs[m]).code_id
                    == w.states[a].code_id;
            assert(ps[m].code_id == ss[a].code_id);
            assert(motor_clamped(w.states[a].left_motor_speed) && motor_clamped(
                w.states[a].right_motor_speed,
            ));
        } else {
            assert(ss[a] == s);
            assert(ps[w.programs.len() as int] == c);
        }
    }
}

} // verus!
