//! The executable world store and its command layer.
//!
//! [`World`] holds the four record sets, the configuration singleton and the
//! timer record as plain in-memory collections; the host environment is
//! expected to run each command as one serializable, all-or-nothing unit of
//! work.  Every command is verified to implement its transition from
//! [`crate::model`] exactly and to preserve the data-model invariants.

use vstd::prelude::*;

use crate::model::{
    lemma_active_at, lemma_dormant_at, lemma_owned_program_at, lemma_program_at, lemma_state_at,
    lemma_presence_push_fresh_wf, lemma_presence_restore_wf, lemma_presence_retire_wf,
    lemma_presence_update_wf, lemma_program_update_wf, lemma_state_push_wf, lemma_state_update_wf,
    lemma_upload_insert_wf, WorldV,
};
use crate::motor::{clamp_motor_spec, clamp_motor_speed, lemma_clamp_motor_idempotent,
    lemma_zero_motor_clamped};
use crate::records::{
    CodeV, MicroprocessCode, MicroprocessState, Player, PlayerV, StateV, UpdatePlayerTimer,
    Vector3, WorldConfig, WorldError,
};
use vstd::string::StringExecFns;

verus! {

/// The authoritative world state: active and dormant players, the program
/// store, the run-state tracker, the configuration singleton, the
/// replication-timer record, and the three monotone key counters.
pub struct World {
    pub players: Vec<Player>,
    pub logged_out_players: Vec<Player>,
    pub microprocess_codes: Vec<MicroprocessCode>,
    pub microprocess_states: Vec<MicroprocessState>,
    pub world_config: Option<WorldConfig>,
    pub update_player_timer: Option<UpdatePlayerTimer>,
    pub next_player_id: u32,
    pub next_code_id: u32,
    pub next_state_id: u32,
}

impl View for World {
    type V = WorldV;

    open spec fn view(&self) -> WorldV {
        WorldV {
            players: self.players@.map_values(|p: Player| p@),
            dormant: self.logged_out_players@.map_values(|p: Player| p@),
            programs: self.microprocess_codes@.map_values(|c: MicroprocessCode| c@),
            states: self.microprocess_states@.map_values(|s: MicroprocessState| s@),
            config: match self.world_config {
                Some(c) => Some(c@),
                None => None,
            },
            timer: self.update_player_timer,
            next_player_id: self.next_player_id,
            next_code_id: self.next_code_id,
            next_state_id: self.next_state_id,
        }
    }
}

/// The index of the first player record carrying this identity.
fn find_player_index(players: &Vec<Player>, identity: u64) -> (r: Option<usize>)
    ensures
        match r {
            Some(i) => i < players@.len() && players@[i as int]@.identity == identity,
            None => forall|k: int|
                0 <= k < players@.len() ==> (#[trigger] players@[k])@.identity != identity,
        },
{
    let n = players.len();
    let mut k: usize = 0;
    while k < n
        invariant
            n == players@.len(),
            k <= n,
            forall|m: int| 0 <= m < k ==> (#[trigger] players@[m])@.identity != identity,
        decreases n - k,
    {
        if players[k].identity == identity {
            return Some(k);
        }
        k = k + 1;
    }
    None
}

/// The index of the program carrying this key.
fn find_code_index(codes: &Vec<MicroprocessCode>, code_id: u32) -> (r: Option<usize>)
    ensures
        match r {
            Some(i) => i < codes@.len() && codes@[i as int]@.code_id == code_id,
            None => forall|k: int|
                0 <= k < codes@.len() ==> (#[trigger] codes@[k])@.code_id != code_id,
        },
{
    let n = codes.len();
    let mut k: usize = 0;
    while k < n
        invariant
            n == codes@.len(),
            k <= n,
            forall|m: int| 0 <= m < k ==> (#[trigger] codes@[m])@.code_id != code_id,
        decreases n - k,
    {
        if codes[k].code_id == code_id {
            return Some(k);
        }
        k = k + 1;
    }
    None
}

/// The index of the first program of this owner carrying this name.
fn find_owned_code_index(codes: &Vec<MicroprocessCode>, owner_id: u32, name: &String) -> (r:
    Option<usize>)
    ensures
        match r {
            Some(i) => i < codes@.len() && codes@[i as int]@.owner_id == owner_id && codes@[i
                as int]@.name == name@,
            None => forall|k: int|
                0 <= k < codes@.len() ==> !((#[trigger] codes@[k])@.owner_id == owner_id
                    && codes@[k]@.name == name@),
        },
{
    let n = codes.len();
    let mut k: usize = 0;
    while k < n
        invariant
            n == codes@.len(),
            k <= n,
            forall|m: int|
                0 <= m < k ==> !((#[trigger] codes@[m])@.owner_id == owner_id && codes@[m]@.name
                    == name@),
        decreases n - k,
    {
        if codes[k].owner_id == owner_id && codes[k].name == *name {
            return Some(k);
        }
        k = k + 1;
    }
    None
}

/// The index of the run state tracking this program.
fn find_state_index(states: &Vec<MicroprocessState>, code_id: u32) -> (r: Option<usize>)
    ensures
        match r {
            Some(i) => i < states@.len() && states@[i as int]@.code_id == code_id,
            None => forall|k: int|
                0 <= k < states@.len() ==> (#[trigger] states@[k])@.code_id != code_id,
        },
{
    let n = states.len();
    let mut k: usize = 0;
    while k < n
        invariant
            n == states@.len(),
            k <= n,
            forall|m: int| 0 <= m < k ==> (#[trigger] states@[m])@.code_id != code_id,
        decreases n - k,
    {
        if states[k].code_id == code_id {
            return Some(k);
        }
        k = k + 1;
    }
    None
}

impl World {
    /// An empty, uninitialized world.
    pub fn new() -> (w: World)
        ensures
            w@ == WorldV::initial(),
            w@.wf(),
    {
        let w = World {
            players: Vec::new(),
            logged_out_players: Vec::new(),
            microprocess_codes: Vec::new(),
            microprocess_states: Vec::new(),
            world_config: None,
            update_player_timer: None,
            next_player_id: 1,
            next_code_id: 1,
            next_state_id: 1,
        };
        proof {
            assert(w@ =~= WorldV::initial());
        }
        w
    }

    /// Initialization, run once before any other operation: creates the
    /// world-configuration singleton and arms the recurring replication
    /// trigger at its fixed 100 ms period.  Running it again fails with
    /// `AlreadyInitialized` instead of silently duplicating the trigger.
    pub fn init(&mut self) -> (r: Result<(), WorldError>)
        requires
            old(self)@.wf(),
        ensures
            final(self)@ == old(self)@.init_step().0,
            r == old(self)@.init_step().1,
            final(self)@.wf(),
    {
        let ghost w = self@;
        if self.world_config.is_some() || self.update_player_timer.is_some() {
            return Err(WorldError::AlreadyInitialized);
        }
        self.world_config = Some(
            WorldConfig { id: 0, world_name: String::from_str("Solarville") },
        );
        self.update_player_timer = Some(
            UpdatePlayerTimer { scheduled_id: 0, interval_micros: 100000 },
        );
        proof {
            assert(self@ =~= w.init_step().0);
        }
        Ok(())
    }

    /// One firing of the position-replication trigger.  The fan-out itself
    /// is the host's subscription mechanism — every committed record change
    /// is already observable to subscribers — so the tick performs no
    /// per-player computation and never alters the store.
    pub fn update_player_positions(&self, _timer: &UpdatePlayerTimer) -> (r: Result<
        (),
        WorldError,
    >)
        ensures
            r == Ok::<(), WorldError>(()),
    {
        Ok(())
    }

    /// Connection of a session: restores the dormant record for this
    /// identity unchanged — same display id, name and pose — or creates a
    /// fresh player with empty name, zero pose and a newly drawn display id.
    /// Returns the player now active.  The host delivers a connection only
    /// for an identity with no active record.
    pub fn connect(&mut self, identity: u64, now: u64) -> (p: Player)
        requires
            old(self)@.wf(),
            !old(self)@.has_active(identity),
            old(self)@.next_player_id < u32::MAX,
        ensures
            final(self)@ == old(self)@.connect_step(identity, now).0,
            p@ == old(self)@.connect_step(identity, now).1,
            final(self)@.wf(),
    {
        let ghost w = self@;
        match find_player_index(&self.logged_out_players, identity) {
            Some(i) => {
                proof {
                    assert(w.dormant[i as int] == self.logged_out_players@[i as int]@);
                    lemma_dormant_at(w, identity, i as int);
                    lemma_presence_restore_wf(w, i as int, w.dormant[i as int]);
                }
                let moved = self.logged_out_players.remove(i);
                let restored = Player {
                    identity: moved.identity,
                    player_id: moved.player_id,
                    name: moved.name.clone(),
                    position: moved.position,
                    rotation: moved.rotation,
                    last_update: moved.last_update,
                };
                self.players.push(moved);
                proof {
                    assert(self@.players =~= w.players.push(w.dormant[i as int]));
                    assert(self@.dormant =~= w.dormant.remove(i as int));
                    assert(self@ =~= w.connect_step(identity, now).0);
                }
                restored
            }
            None => {
                proof {
                    if w.has_dormant(identity) {
                        let k = w.dormant_at(identity);
                        assert(0 <= k < w.dormant.len() && w.dormant[k].identity == identity);
                        assert(w.dormant[k] == self.logged_out_players@[k]@);
                    }
                }
                let fresh = Player {
                    identity,
                    player_id: self.next_player_id,
                    name: String::new(),
                    position: Vector3::zero(),
                    rotation: Vector3::zero(),
                    last_update: now,
                };
                let created = Player {
                    identity,
                    player_id: self.next_player_id,
                    name: String::new(),
                    position: Vector3::zero(),
                    rotation: Vector3::zero(),
                    last_update: now,
                };
                proof {
                    lemma_presence_push_fresh_wf(w, fresh@);
                }
                self.players.push(fresh);
                self.next_player_id = self.next_player_id + 1;
                proof {
                    assert(self@.players =~= w.players.push(w.connect_step(identity, now).1));
                    assert(self@ =~= w.connect_step(identity, now).0);
                }
                created
            }
        }
    }

    /// Disconnection of a session: moves the active record for this
    /// identity, if any, to the dormant set verbatim for later restoration;
    /// no error if absent.
    pub fn disconnect(&mut self, identity: u64)
        requires
            old(self)@.wf(),
        ensures
            final(self)@ == old(self)@.disconnect_step(identity),
            final(self)@.wf(),
    {
        let ghost w = self@;
        match find_player_index(&self.players, identity) {
            Some(i) => {
                proof {
                    assert(w.players[i as int] == self.players@[i as int]@);
                    lemma_active_at(w, identity, i as int);
                    lemma_presence_retire_wf(w, i as int);
                }
                let moved = self.players.remove(i);
                self.logged_out_players.push(moved);
                proof {
                    assert(self@.players =~= w.players.remove(i as int));
                    assert(self@.dormant =~= w.dormant.push(w.players[i as int]));
                    assert(self@ =~= w.disconnect_step(identity));
                }
            }
            None => {
                proof {
                    if w.has_active(identity) {
                        let k = w.active_at(identity);
                        assert(0 <= k < w.players.len() && w.players[k].identity == identity);
                        assert(w.players[k] == self.players@[k]@);
                    }
                    assert(self@ =~= w.disconnect_step(identity));
                }
            }
        }
    }

    /// Registration: upsert of the caller's record.  An active record gets
    /// the new name, pose and update stamp; a dormant record is reactivated
    /// likewise, keeping its display id; an unknown identity gets a fresh
    /// player.  Never fails.
    pub fn register_player(
        &mut self,
        identity: u64,
        name: String,
        position: Vector3,
        rotation: Vector3,
        now: u64,
    )
        requires
            old(self)@.wf(),
            old(self)@.next_player_id < u32::MAX,
        ensures
            final(self)@ == old(self)@.register_step(identity, name@, position, rotation, now),
            final(self)@.wf(),
    {
        let ghost w = self@;
        let ghost name_view = name@;
        match find_player_index(&self.players, identity) {
            Some(i) => {
                proof {
                    assert(w.players[i as int] == self.players@[i as int]@);
                    lemma_active_at(w, identity, i as int);
                }
                let target = &mut self.players[i];
                target.name = name;
                target.position = position;
                target.rotation = rotation;
                target.last_update = now;
                proof {
                    let pv = PlayerV {
                        name: name_view,
                        position,
                        rotation,
                        last_update: now,
                        ..w.players[i as int]
                    };
                    assert(self.players@[i as int]@ =~= pv);
                    lemma_presence_update_wf(w, i as int, pv);
                    assert(self@.players =~= w.players.update(i as int, pv));
                    assert(self@ =~= w.register_step(identity, name_view, position, rotation, now));
                }
            }
            None => {
                proof {
                    if w.has_active(identity) {
                        let k = w.active_at(identity);
                        assert(0 <= k < w.players.len() && w.players[k].identity == identity);
                        assert(w.players[k] == self.players@[k]@);
                    }
                }
                match find_player_index(&self.logged_out_players, identity) {
                    Some(i) => {
                        proof {
                            assert(w.dormant[i as int] == self.logged_out_players@[i as int]@);
                            lemma_dormant_at(w, identity, i as int);
                        }
                        let mut moved = self.logged_out_players.remove(i);
                        moved.name = name;
                        moved.position = position;
                        moved.rotation = rotation;
                        moved.last_update = now;
                        let ghost pv = moved@;
                        proof {
                            lemma_presence_restore_wf(w, i as int, pv);
                        }
                        self.players.push(moved);
                        proof {
                            assert(self@.players =~= w.players.push(pv));
                            assert(self@.dormant =~= w.dormant.remove(i as int));
                            assert(self@ =~= w.register_step(
                                identity,
                                name_view,
                                position,
                                rotation,
                                now,
                            ));
                        }
                    }
                    None => {
                        proof {
                            if w.has_dormant(identity) {
                                let k = w.dormant_at(identity);
                                assert(0 <= k < w.dormant.len() && w.dormant[k].identity
                                    == identity);
                                assert(w.dormant[k] == self.logged_out_players@[k]@);
                            }
                        }
                        let fresh = Player {
                            identity,
                            player_id: self.next_player_id,
                            name,
                            position,
                            rotation,
                            last_update: now,
                        };
                        proof {
                            lemma_presence_push_fresh_wf(w, fresh@);
                        }
                        self.players.push(fresh);
                        self.next_player_id = self.next_player_id + 1;
                        proof {
                            assert(self@.players =~= w.register_step(
                                identity,
                                name_view,
                                position,
                                rotation,
                                now,
                            ).players);
                            assert(self@ =~= w.register_step(
                                identity,
                                name_view,
                                position,
                                rotation,
                                now,
                            ));
                        }
                    }
                }
            }
        }
    }

    /// Pose update: overwrites position, rotation and the update stamp of
    /// the caller's active record, leaving the name untouched; fails with
    /// `NotFound`, mutating nothing, when the identity has no active record.
    pub fn update_player_position(
        &mut self,
        identity: u64,
        position: Vector3,
        rotation: Vector3,
        now: u64,
    ) -> (r: Result<(), WorldError>)
        requires
            old(self)@.wf(),
        ensures
            final(self)@ == old(self)@.update_position_step(identity, position, rotation, now).0,
            r == old(self)@.update_position_step(identity, position, rotation, now).1,
            final(self)@.wf(),
    {
        let ghost w = self@;
        match find_player_index(&self.players, identity) {
            Some(i) => {
                proof {
                    assert(w.players[i as int] == self.players@[i as int]@);
                    lemma_active_at(w, identity, i as int);
                }
                let target = &mut self.players[i];
                target.position = position;
                target.rotation = rotation;
                target.last_update = now;
                proof {
                    let pv = PlayerV {
                        position,
                        rotation,
                        last_update: now,
                        ..w.players[i as int]
                    };
                    assert(self.players@[i as int]@ =~= pv);
                    lemma_presence_update_wf(w, i as int, pv);
                    assert(self@.players =~= w.players.update(i as int, pv));
                    assert(self@ =~= w.update_position_step(identity, position, rotation, now).0);
                }
                Ok(())
            }
            None => {
                proof {
                    if w.has_active(identity) {
                        let k = w.active_at(identity);
                        assert(0 <= k < w.players.len() && w.players[k].identity == identity);
                        assert(w.players[k] == self.players@[k]@);
                    }
                }
                Err(WorldError::NotFound)
            }
        }
    }

    /// Code upload: updates the caller's program of this name in place —
    /// resetting its run state, if any, to not-running with status "code
    /// updated, awaiting execution" — or creates the program together with a
    /// zeroed, not-running run state with status "awaiting execution".
    /// Fails with `NotFound` when the caller has no active record.
    pub fn update_microprocess_code(
        &mut self,
        identity: u64,
        name: String,
        file_path: String,
        code_content: String,
        now: u64,
    ) -> (r: Result<(), WorldError>)
        requires
            old(self)@.wf(),
            old(self)@.next_code_id < u32::MAX,
            old(self)@.next_state_id < u32::MAX,
        ensures
            final(self)@ == old(self)@.upload_step(
                identity,
                name@,
                file_path@,
                code_content@,
                now,
            ).0,
            r == old(self)@.upload_step(identity, name@, file_path@, code_content@, now).1,
            final(self)@.wf(),
    {
        let ghost w = self@;
        let ghost name_view = name@;
        let ghost path_view = file_path@;
        let ghost content_view = code_content@;
        let owner_id: u32 = match find_player_index(&self.players, identity) {
            Some(i) => {
                proof {
                    assert(w.players[i as int] == self.players@[i as int]@);
                    lemma_active_at(w, identity, i as int);
                }
                self.players[i].player_id
            }
            None => {
                proof {
                    if w.has_active(identity) {
                        let k = w.active_at(identity);
                        assert(0 <= k < w.players.len() && w.players[k].identity == identity);
                        assert(w.players[k] == self.players@[k]@);
                    }
                }
                return Err(WorldError::NotFound);
            }
        };
        match find_owned_code_index(&self.microprocess_codes, owner_id, &name) {
            Some(ci) => {
                proof {
                    assert(w.programs[ci as int] == self.microprocess_codes@[ci as int]@);
                    lemma_owned_program_at(w, owner_id, name_view, ci as int);
                }
                let code_id = self.microprocess_codes[ci].code_id;
                let target = &mut self.microprocess_codes[ci];
                target.file_path = file_path;
                target.code_content = code_content;
                target.last_updated = now;
                let ghost cv = CodeV {
                    file_path: path_view,
                    code_content: content_view,
                    last_updated: now,
                    ..w.programs[ci as int]
                };
                let ghost w1 = WorldV { programs: w.programs.update(ci as int, cv), ..w };
                proof {
                    assert(self.microprocess_codes@[ci as int]@ =~= cv);
                    lemma_program_update_wf(w, ci as int, cv);
                    assert(self@.programs =~= w1.programs);
                    assert(self@ =~= w1);
                }
                match find_state_index(&self.microprocess_states, code_id) {
                    Some(si) => {
                        proof {
                            assert(w.states[si as int] == self.microprocess_states@[si as int]@);
                            lemma_state_at(w, code_id, si as int);
                        }
                        let st = &mut self.microprocess_states[si];
                        st.is_running = false;
                        st.error_message = String::from_str("code updated, awaiting execution");
                        st.last_updated = now;
                        proof {
                            let sv = StateV {
                                is_running: false,
                                error_message: "code updated, awaiting execution"@,
                                last_updated: now,
                                ..w.states[si as int]
                            };
                            assert(self.microprocess_states@[si as int]@ =~= sv);
                            lemma_state_update_wf(w1, si as int, sv);
                            assert(self@.states =~= w.states.update(si as int, sv));
                            assert(self@ =~= w.upload_step(
                                identity,
                                name_view,
                                path_view,
                                content_view,
                                now,
                            ).0);
                        }
                    }
                    None => {
                        proof {
                            if w.has_state(code_id) {
                                let k = w.state_at(code_id);
                                assert(0 <= k < w.states.len() && w.states[k].code_id == code_id);
                                assert(w.states[k] == self.microprocess_states@[k]@);
                            }
                            assert(self@ =~= w.upload_step(
                                identity,
                                name_view,
                                path_view,
                                content_view,
                                now,
                            ).0);
                        }
                    }
                }
                Ok(())
            }
            None => {
                proof {
                    if w.has_owned_program(owner_id, name_view) {
                        let k = w.owned_program_at(owner_id, name_view);
                        assert(0 <= k < w.programs.len() && w.programs[k].owner_id == owner_id
                            && w.programs[k].name == name_view);
                        assert(w.programs[k] == self.microprocess_codes@[k]@);
                    }
                }
                let code_id = self.next_code_id;
                let new_code = MicroprocessCode {
                    code_id,
                    owner_id,
                    name,
                    file_path,
                    code_content,
                    last_updated: now,
                };
                let ghost cv = new_code@;
                let new_state = MicroprocessState {
                    state_id: self.next_state_id,
                    code_id,
                    left_motor_speed: 0,
                    right_motor_speed: 0,
                    error_message: String::from_str("awaiting execution"),
                    last_updated: now,
                    is_running: false,
                };
                let ghost sv = new_state@;
                proof {
                    lemma_zero_motor_clamped();
                    lemma_upload_insert_wf(w, cv, sv);
                }
                self.microprocess_codes.push(new_code);
                self.microprocess_states.push(new_state);
                self.next_code_id = self.next_code_id + 1;
                self.next_state_id = self.next_state_id + 1;
                proof {
                    assert(self@.programs =~= w.programs.push(cv));
                    assert(self@.states =~= w.states.push(sv));
                    assert(self@ =~= w.upload_step(
                        identity,
                        name_view,
                        path_view,
                        content_view,
                        now,
                    ).0);
                }
                Ok(())
            }
        }
    }

    /// Run-state upsert: clamps both motor commands to [-1.0, 1.0] and
    /// overwrites the program's run state, creating one when absent.  Fails
    /// with `NotFound` when the program does not exist.
    pub fn update_microprocess_state(
        &mut self,
        code_id: u32,
        left_motor_speed: u32,
        right_motor_speed: u32,
        error_message: String,
        is_running: bool,
        now: u64,
    ) -> (r: Result<(), WorldError>)
        requires
            old(self)@.wf(),
            old(self)@.next_state_id < u32::MAX,
        ensures
            final(self)@ == old(self)@.set_state_step(
                code_id,
                left_motor_speed,
                right_motor_speed,
                error_message@,
                is_running,
                now,
            ).0,
            r == old(self)@.set_state_step(
                code_id,
                left_motor_speed,
                right_motor_speed,
                error_message@,
                is_running,
                now,
            ).1,
            final(self)@.wf(),
    {
        let ghost w = self@;
        let ghost msg_view = error_message@;
        match find_code_index(&self.microprocess_codes, code_id) {
            Some(ci) => {
                proof {
                    assert(w.programs[ci as int] == self.microprocess_codes@[ci as int]@);
                    lemma_program_at(w, code_id, ci as int);
                }
            }
            None => {
                proof {
                    if w.has_program(code_id) {
                        let k = w.program_at(code_id);
                        assert(0 <= k < w.programs.len() && w.programs[k].code_id == code_id);
                        assert(w.programs[k] == self.microprocess_codes@[k]@);
                    }
                }
                return Err(WorldError::NotFound);
            }
        }
        let left = clamp_motor_speed(left_motor_speed);
        let right = clamp_motor_speed(right_motor_speed);
        proof {
            lemma_clamp_motor_idempotent(left_motor_speed);
            lemma_clamp_motor_idempotent(right_motor_speed);
        }
        match find_state_index(&self.microprocess_states, code_id) {
            Some(si) => {
                proof {
                    assert(w.states[si as int] == self.microprocess_states@[si as int]@);
                    lemma_state_at(w, code_id, si as int);
                }
                let st = &mut self.microprocess_states[si];
                st.left_motor_speed = left;
                st.right_motor_speed = right;
                st.error_message = error_message;
                st.last_updated = now;
                st.is_running = is_running;
                proof {
                    let sv = StateV {
                        left_motor_speed: clamp_motor_spec(left_motor_speed),
                        right_motor_speed: clamp_motor_spec(right_motor_speed),
                        error_message: msg_view,
                        last_updated: now,
                        is_running,
                        ..w.states[si as int]
                    };
                    assert(self.microprocess_states@[si as int]@ =~= sv);
                    lemma_state_update_wf(w, si as int, sv);
                    assert(self@.states =~= w.states.update(si as int, sv));
                    assert(self@ =~= w.set_state_step(
                        code_id,
                        left_motor_speed,
                        right_motor_speed,
                        msg_view,
                        is_running,
                        now,
                    ).0);
                }
            }
            None => {
                proof {
                    if w.has_state(code_id) {
                        let k = w.state_at(code_id);
                        assert(0 <= k < w.states.len() && w.states[k].code_id == code_id);
                        assert(w.states[k] == self.microprocess_states@[k]@);
                    }
                }
                let new_state = MicroprocessState {
                    state_id: self.next_state_id,
                    code_id,
                    left_motor_speed: left,
                    right_motor_speed: right,
                    error_message,
                    last_updated: now,
                    is_running,
                };
                let ghost sv = new_state@;
                proof {
                    lemma_state_push_wf(w, sv);
                }
                self.microprocess_states.push(new_state);
                self.next_state_id = self.next_state_id + 1;
                proof {
                    assert(self@.states =~= w.states.push(sv));
                    assert(self@ =~= w.set_state_step(
                        code_id,
                        left_motor_speed,
                        right_motor_speed,
                        msg_view,
                        is_running,
                        now,
                    ).0);
                }
            }
        }
        Ok(())
    }

    /// Start: with the program present and the caller its owner, marks the
    /// run state running with status "starting execution", leaving the
    /// motors untouched; a missing run state is created zeroed and running.
    /// Fails with `NotFound` when the program or the caller's record is
    /// missing, and with `PermissionDenied` for a caller that is not the
    /// owner, changing nothing in either case.
    pub fn start_microprocess(&mut self, identity: u64, code_id: u32, now: u64) -> (r: Result<
        (),
        WorldError,
    >)
        requires
            old(self)@.wf(),
            old(self)@.next_state_id < u32::MAX,
        ensures
            final(self)@ == old(self)@.start_step(identity, code_id, now).0,
            r == old(self)@.start_step(identity, code_id, now).1,
            final(self)@.wf(),
    {
        let ghost w = self@;
        let owner_id: u32 = match find_code_index(&self.microprocess_codes, code_id) {
            Some(ci) => {
                proof {
                    assert(w.programs[ci as int] == self.microprocess_codes@[ci as int]@);
                    lemma_program_at(w, code_id, ci as int);
                }
                self.microprocess_codes[ci].owner_id
            }
            None => {
                proof {
                    if w.has_program(code_id) {
                        let k = w.program_at(code_id);
                        assert(0 <= k < w.programs.len() && w.programs[k].code_id == code_id);
                        assert(w.programs[k] == self.microprocess_codes@[k]@);
                    }
                }
                return Err(WorldError::NotFound);
            }
        };
        let player_id: u32 = match find_player_index(&self.players, identity) {
            Some(i) => {
                proof {
                    assert(w.players[i as int] == self.players@[i as int]@);
                    lemma_active_at(w, identity, i as int);
                }
                self.players[i].player_id
            }
            None => {
                proof {
                    if w.has_active(identity) {
                        let k = w.active_at(identity);
                        assert(0 <= k < w.players.len() && w.players[k].identity == identity);
                        assert(w.players[k] == self.players@[k]@);
                    }
                }
                return Err(WorldError::NotFound);
            }
        };
        if owner_id != player_id {
            return Err(WorldError::PermissionDenied);
        }
        match find_state_index(&self.microprocess_states, code_id) {
            Some(si) => {
                proof {
                    assert(w.states[si as int] == self.microprocess_states@[si as int]@);
                    lemma_state_at(w, code_id, si as int);
                }
                let st = &mut self.microprocess_states[si];
                st.is_running = true;
                st.error_message = String::from_str("starting execution");
                st.last_updated = now;
                proof {
                    let sv = StateV {
                        is_running: true,
                        error_message: "starting execution"@,
                        last_updated: now,
                        ..w.states[si as int]
                    };
                    assert(self.microprocess_states@[si as int]@ =~= sv);
                    lemma_state_update_wf(w, si as int, sv);
                    assert(self@.states =~= w.states.update(si as int, sv));
                    assert(self@ =~= w.start_step(identity, code_id, now).0);
                }
            }
            None => {
                proof {
                    if w.has_state(code_id) {
                        let k = w.state_at(code_id);
                        assert(0 <= k < w.states.len() && w.states[k].code_id == code_id);
                        assert(w.states[k] == self.microprocess_states@[k]@);
                    }
                }
                let new_state = MicroprocessState {
                    state_id: self.next_state_id,
                    code_id,
                    left_motor_speed: 0,
                    right_motor_speed: 0,
                    error_message: String::from_str("starting execution"),
                    last_updated: now,
                    is_running: true,
                };
                let ghost sv = new_state@;
                proof {
                    lemma_zero_motor_clamped();
                    lemma_state_push_wf(w, sv);
                }
                self.microprocess_states.push(new_state);
                self.next_state_id = self.next_state_id + 1;
                proof {
                    assert(self@.states =~= w.states.push(sv));
                    assert(self@ =~= w.start_step(identity, code_id, now).0);
                }
            }
        }
        Ok(())
    }

    /// Stop: with the program present, the caller its owner and a run state
    /// present, marks the state stopped — not-running, both motors zeroed,
    /// status "execution stopped".  Unlike start, stop does not fabricate a
    /// missing run state: it fails with `NotFound`, as it does when the
    /// program or the caller's record is missing; a caller that is not the
    /// owner gets `PermissionDenied`.  Failures change nothing.
    pub fn stop_microprocess(&mut self, identity: u64, code_id: u32, now: u64) -> (r: Result<
        (),
        WorldError,
    >)
        requires
            old(self)@.wf(),
        ensures
            final(self)@ == old(self)@.stop_step(identity, code_id, now).0,
            r == old(self)@.stop_step(identity, code_id, now).1,
            final(self)@.wf(),
    {
        let ghost w = self@;
        let owner_id: u32 = match find_code_index(&self.microprocess_codes, code_id) {
            Some(ci) => {
                proof {
                    assert(w.programs[ci as int] == self.microprocess_codes@[ci as int]@);
                    lemma_program_at(w, code_id, ci as int);
                }
                self.microprocess_codes[ci].owner_id
            }
            None => {
                proof {
                    if w.has_program(code_id) {
                        let k = w.program_at(code_id);
                        assert(0 <= k < w.programs.len() && w.programs[k].code_id == code_id);
                        assert(w.programs[k] == self.microprocess_codes@[k]@);
                    }
                }
                return Err(WorldError::NotFound);
            }
        };
        let player_id: u32 = match find_player_index(&self.players, identity) {
            Some(i) => {
                proof {
                    assert(w.players[i as int] == self.players@[i as int]@);
                    lemma_active_at(w, identity, i as int);
                }
                self.players[i].player_id
            }
            None => {
                proof {
                    if w.has_active(identity) {
                        let k = w.active_at(identity);
                        assert(0 <= k < w.players.len() && w.players[k].identity == identity);
                        assert(w.players[k] == self.players@[k]@);
                    }
                }
                return Err(WorldError::NotFound);
            }
        };
        if owner_id != player_id {
            return Err(WorldError::PermissionDenied);
        }
        match find_state_index(&self.microprocess_states, code_id) {
            Some(si) => {
                proof {
                    assert(w.states[si as int] == self.microprocess_states@[si as int]@);
                    lemma_state_at(w, code_id, si as int);
                }
                let st = &mut self.microprocess_states[si];
                st.is_running = false;
                st.left_motor_speed = 0;
                st.right_motor_speed = 0;
                st.error_message = String::from_str("execution stopped");
                st.last_updated = now;
                proof {
                    lemma_zero_motor_clamped();
                    let sv = StateV {
                        is_running: false,
                        left_motor_speed: 0,
                        right_motor_speed: 0,
                        error_message: "execution stopped"@,
                        last_updated: now,
                        ..w.states[si as int]
                    };
                    assert(self.microprocess_states@[si as int]@ =~= sv);
                    lemma_state_update_wf(w, si as int, sv);
                    assert(self@.states =~= w.states.update(si as int, sv));
                    assert(self@ =~= w.stop_step(identity, code_id, now).0);
                }
                Ok(())
            }
            None => {
                proof {
                    if w.has_state(code_id) {
                        let k = w.state_at(code_id);
                        assert(0 <= k < w.states.len() && w.states[k].code_id == code_id);
                        assert(w.states[k] == self.microprocess_states@[k]@);
                    }
                }
                Err(WorldError::NotFound)
            }
        }
    }

    /// The active record for this identity, if any.
    pub fn get_player(&self, identity: u64) -> (r: Option<&Player>)
        requires
            self@.wf(),
        ensures
            r is Some <==> self@.has_active(identity),
            r is Some ==> r->Some_0@ == self@.players[self@.active_at(identity)],
    {
        let ghost w = self@;
        match find_player_index(&self.players, identity) {
            Some(i) => {
                proof {
                    assert(w.players[i as int] == self.players@[i as int]@);
                    lemma_active_at(w, identity, i as int);
                }
                Some(&self.players[i])
            }
            None => {
                proof {
                    if w.has_active(identity) {
                        let k = w.active_at(identity);
                        assert(0 <= k < w.players.len() && w.players[k].identity == identity);
                        assert(w.players[k] == self.players@[k]@);
                    }
                }
                None
            }
        }
    }

    /// The dormant record for this identity, if any.
    pub fn get_logged_out_player(&self, identity: u64) -> (r: Option<&Player>)
        requires
            self@.wf(),
        ensures
            r is Some <==> self@.has_dormant(identity),
            r is Some ==> r->Some_0@ == self@.dormant[self@.dormant_at(identity)],
    {
        let ghost w = self@;
        match find_player_index(&self.logged_out_players, identity) {
            Some(i) => {
                proof {
                    assert(w.dormant[i as int] == self.logged_out_players@[i as int]@);
                    lemma_dormant_at(w, identity, i as int);
                }
                Some(&self.logged_out_players[i])
            }
            None => {
                proof {
                    if w.has_dormant(identity) {
                        let k = w.dormant_at(identity);
                        assert(0 <= k < w.dormant.len() && w.dormant[k].identity == identity);
                        assert(w.dormant[k] == self.logged_out_players@[k]@);
                    }
                }
                None
            }
        }
    }

    /// The program of this owner carrying this name, if any.
    pub fn get_microprocess_code(&self, owner_id: u32, name: &String) -> (r: Option<
        &MicroprocessCode,
    >)
        requires
            self@.wf(),
        ensures
            r is Some <==> self@.has_owned_program(owner_id, name@),
            r is Some ==> r->Some_0@ == self@.programs[self@.owned_program_at(owner_id, name@)],
    {
        let ghost w = self@;
        match find_owned_code_index(&self.microprocess_codes, owner_id, name) {
            Some(i) => {
                proof {
                    assert(w.programs[i as int] == self.microprocess_codes@[i as int]@);
                    lemma_owned_program_at(w, owner_id, name@, i as int);
                }
                Some(&self.microprocess_codes[i])
            }
            None => {
                proof {
                    if w.has_owned_program(owner_id, name@) {
                        let k = w.owned_program_at(owner_id, name@);
                        assert(0 <= k < w.programs.len() && w.programs[k].owner_id == owner_id
                            && w.programs[k].name == name@);
                        assert(w.programs[k] == self.microprocess_codes@[k]@);
                    }
                }
                None
            }
        }
    }

    /// The program carrying this key, if any.
    pub fn get_microprocess_code_by_id(&self, code_id: u32) -> (r: Option<&MicroprocessCode>)
        requires
            self@.wf(),
        ensures
            r is Some <==> self@.has_program(code_id),
            r is Some ==> r->Some_0@ == self@.programs[self@.program_at(code_id)],
    {
        let ghost w = self@;
        match find_code_index(&self.microprocess_codes, code_id) {
            Some(i) => {
                proof {
                    assert(w.programs[i as int] == self.microprocess_codes@[i as int]@);
                    lemma_program_at(w, code_id, i as int);
                }
                Some(&self.microprocess_codes[i])
            }
            None => {
                proof {
                    if w.has_program(code_id) {
                        let k = w.program_at(code_id);
                        assert(0 <= k < w.programs.len() && w.programs[k].code_id == code_id);
                        assert(w.programs[k] == self.microprocess_codes@[k]@);
                    }
                }
                None
            }
        }
    }

    /// The run state tracking this program, if any.
    pub fn get_microprocess_state(&self, code_id: u32) -> (r: Option<&MicroprocessState>)
        requires
            self@.wf(),
        ensures
            r is Some <==> self@.has_state(code_id),
            r is Some ==> r->Some_0@ == self@.states[self@.state_at(code_id)],
    {
        let ghost w = self@;
        match find_state_index(&self.microprocess_states, code_id) {
            Some(i) => {
                proof {
                    assert(w.states[i as int] == self.microprocess_states@[i as int]@);
                    lemma_state_at(w, code_id, i as int);
                }
                Some(&self.microprocess_states[i])
            }
            None => {
                proof {
                    if w.has_state(code_id) {
                        let k = w.state_at(code_id);
                        assert(0 <= k < w.states.len() && w.states[k].code_id == code_id);
                        assert(w.states[k] == self.microprocess_states@[k]@);
                    }
                }
                None
            }
        }
    }

    /// How many players are active.
    pub fn player_count(&self) -> (n: usize)
        ensures
            n == self@.players.len(),
    {
        self.players.len()
    }

    /// How many players are dormant.
    pub fn logged_out_player_count(&self) -> (n: usize)
        ensures
            n == self@.dormant.len(),
    {
        self.logged_out_players.len()
    }

    /// How many programs the store holds.
    pub fn microprocess_code_count(&self) -> (n: usize)
        ensures
            n == self@.programs.len(),
    {
        self.microprocess_codes.len()
    }

    /// How many run states the tracker holds.
    pub fn microprocess_state_count(&self) -> (n: usize)
        ensures
            n == self@.states.len(),
    {
        self.microprocess_states.len()
    }
}

} // verus!
