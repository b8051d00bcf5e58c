//! Cross-command guarantees of the library, proved over the model.
//!
//! Each law quantifies over every well-formed world and every input, so it
//! holds of any sequence of commands: the executable commands in
//! [`crate::world`] are verified to implement the transition functions these
//! laws speak about.

use vstd::prelude::*;

use crate::model::{
    lemma_active_at, lemma_dormant_at, lemma_owned_program_at, lemma_presence_restore_wf,
    lemma_presence_retire_wf, lemma_presence_push_fresh_wf, lemma_program_update_wf,
    lemma_state_at, lemma_state_push_wf, lemma_state_update_wf, lemma_upload_insert_wf, WorldV,
};
use crate::motor::{clamp_motor_spec, lemma_clamp_motor_idempotent, lemma_zero_motor_clamped,
    ZERO_BITS};
use crate::records::{CodeV, StateV, Vector3, WorldError};

verus! {

/// Reconnecting an identity that holds a dormant record restores that
/// record identically: the same display id, name and pose come back.
pub proof fn lemma_reconnect_restores(w: WorldV, identity: u64, now: u64)
    requires
        w.wf(),
        w.has_dormant(identity),
    ensures
        w.connect_step(identity, now).1 == w.dormant[w.dormant_at(identity)],
        w.connect_step(identity, now).1.identity == identity,
{
    let j = w.dormant_at(identity);
    assert(0 <= j < w.dormant.len() && w.dormant[j].identity == identity);
}

/// Connect, then disconnect, then connect again: the identity comes back
/// with the same display id and the same name, whether or not a dormant
/// record existed at the start — reconnection never allocates a second
/// display id.
pub proof fn lemma_connect_disconnect_connect(w: WorldV, identity: u64, t1: u64, t3: u64)
    requires
        w.wf(),
        !w.has_active(identity),
        w.next_player_id < u32::MAX,
    ensures
        ({
            let (w1, p1) = w.connect_step(identity, t1);
            let w2 = w1.disconnect_step(identity);
            let p3 = w2.connect_step(identity, t3).1;
            p3.player_id == p1.player_id && p3.name == p1.name && p3 == p1
        }),
{
    let (w1, p1) = w.connect_step(identity, t1);
    if w.has_dormant(identity) {
        let j = w.dormant_at(identity);
        assert(0 <= j < w.dormant.len() && w.dormant[j].identity == identity);
        lemma_presence_restore_wf(w, j, p1);
        assert(w1.wf());
    } else {
        lemma_presence_push_fresh_wf(w, p1);
        assert(w1.wf());
    }
    let n = w.players.len() as int;
    assert(w1.players[n] == p1);
    lemma_active_at(w1, identity, n);
    let w2 = w1.disconnect_step(identity);
    lemma_presence_retire_wf(w1, n);
    assert(w2.wf());
    let m = w1.dormant.len() as int;
    assert(w2.dormant[m] == p1);
    lemma_dormant_at(w2, identity, m);
    let p3 = w2.connect_step(identity, t3).1;
    assert(p3 == p1);
}

/// A pose update for an unknown identity fails with `NotFound` and mutates
/// no state at all.
pub proof fn lemma_update_position_unknown(
    w: WorldV,
    identity: u64,
    position: Vector3,
    rotation: Vector3,
    now: u64,
)
    requires
        !w.has_active(identity),
    ensures
        w.update_position_step(identity, position, rotation, now).0 == w,
        w.update_position_step(identity, position, rotation, now).1 == Err::<(), WorldError>(
            WorldError::NotFound,
        ),
{
}

/// Whatever motor commands a caller sends, a run-state upsert on an
/// existing program succeeds and stores exactly the clamps of the two
/// commands, together with the given message and running flag.
pub proof fn lemma_set_state_clamps(
    w: WorldV,
    code_id: u32,
    left_motor_speed: u32,
    right_motor_speed: u32,
    error_message: Seq<char>,
    is_running: bool,
    now: u64,
)
    requires
        w.wf(),
        w.has_program(code_id),
        w.next_state_id < u32::MAX,
    ensures
        ({
            let (w2, res) = w.set_state_step(
                code_id,
                left_motor_speed,
                right_motor_speed,
                error_message,
                is_running,
                now,
            );
            res == Ok::<(), WorldError>(()) && w2.has_state(code_id) && w2.states[w2.state_at(
                code_id,
            )].left_motor_speed == clamp_motor_spec(left_motor_speed) && w2.states[w2.state_at(
                code_id,
            )].right_motor_speed == clamp_motor_spec(right_motor_speed) && w2.states[w2.state_at(
                code_id,
            )].error_message == error_message && w2.states[w2.state_at(code_id)].is_running
                == is_running
        }),
{
    lemma_clamp_motor_idempotent(left_motor_speed);
    lemma_clamp_motor_idempotent(right_motor_speed);
    let w2 = w.set_state_step(
        code_id,
        left_motor_speed,
        right_motor_speed,
        error_message,
        is_running,
        now,
    ).0;
    if w.has_state(code_id) {
        let j = w.state_at(code_id);
        assert(0 <= j < w.states.len() && w.states[j].code_id == code_id);
        let sv = StateV {
            left_motor_speed: clamp_motor_spec(left_motor_speed),
            right_motor_speed: clamp_motor_spec(right_motor_speed),
            error_message,
            last_updated: now,
            is_running,
            ..w.states[j]
        };
        lemma_state_update_wf(w, j, sv);
        assert(w2.states[j] == sv);
        lemma_state_at(w2, code_id, j);
    } else {
        let sv = StateV {
            state_id: w.next_state_id,
            code_id,
            left_motor_speed: clamp_motor_spec(left_motor_speed),
            right_motor_speed: clamp_motor_spec(right_motor_speed),
            error_message,
            last_updated: now,
            is_running,
        };
        lemma_state_push_wf(w, sv);
        let n = w.states.len() as int;
        assert(w2.states[n] == sv);
        lemma_state_at(w2, code_id, n);
    }
}

/// Uploading code twice for the same owner and name leaves exactly the
/// records of the first upload: one program — now carrying the second
/// payload and stamp — and no additional run state.
pub proof fn lemma_upload_twice(
    w: WorldV,
    identity: u64,
    name: Seq<char>,
    path1: Seq<char>,
    content1: Seq<char>,
    t1: u64,
    path2: Seq<char>,
    content2: Seq<char>,
    t2: u64,
)
    requires
        w.wf(),
        w.has_active(identity),
        w.next_code_id < u32::MAX,
        w.next_state_id < u32::MAX,
    ensures
        ({
            let w1 = w.upload_step(identity, name, path1, content1, t1).0;
            let w2 = w1.upload_step(identity, name, path2, content2, t2).0;
            let owner_id = w.players[w.active_at(identity)].player_id;
            w2.programs.len() == w1.programs.len() && w2.states.len() == w1.states.len()
                && w2.has_owned_program(owner_id, name) && w2.programs[w2.owned_program_at(
                owner_id,
                name,
            )].code_content == content2 && w2.programs[w2.owned_program_at(owner_id, name)].name
                == name && w2.programs[w2.owned_program_at(owner_id, name)].last_updated == t2
        }),
{
    let i = w.active_at(identity);
    assert(0 <= i < w.players.len() && w.players[i].identity == identity);
    let owner_id = w.players[i].player_id;
    let w1 = w.upload_step(identity, name, path1, content1, t1).0;

    // The first upload leaves the caller's record set untouched, so the
    // second upload resolves the same owner, and it leaves a program of
    // this owner and name in the store.
    if w.has_owned_program(owner_id, name) {
        let a = w.owned_program_at(owner_id, name);
        assert(0 <= a < w.programs.len() && w.programs[a].owner_id == owner_id && w.programs[a].name
            == name);
        let code_id = w.programs[a].code_id;
        let cv1 = CodeV {
            file_path: path1,
            code_content: content1,
            last_updated: t1,
            ..w.programs[a]
        };
        lemma_program_update_wf(w, a, cv1);
        let wp = WorldV { programs: w.programs.update(a, cv1), ..w };
        if w.has_state(code_id) {
            let j = w.state_at(code_id);
            assert(0 <= j < w.states.len() && w.states[j].code_id == code_id);
            let sv = StateV {
                is_running: false,
                error_message: "code updated, awaiting execution"@,
                last_updated: t1,
                ..w.states[j]
            };
            lemma_state_update_wf(wp, j, sv);
        }
        assert(w1.wf());
        assert(w1.programs[a] == cv1);
        lemma_owned_program_at(w1, owner_id, name, a);
    } else {
        let cv1 = CodeV {
            code_id: w.next_code_id,
            owner_id,
            name,
            file_path: path1,
            code_content: content1,
            last_updated: t1,
        };
        let sv1 = StateV {
            state_id: w.next_state_id,
            code_id: w.next_code_id,
            left_motor_speed: ZERO_BITS,
            right_motor_speed: ZERO_BITS,
            error_message: "awaiting execution"@,
            last_updated: t1,
            is_running: false,
        };
        lemma_zero_motor_clamped();
        lemma_upload_insert_wf(w, cv1, sv1);
        assert(w1.wf());
        let n = w.programs.len() as int;
        assert(w1.programs[n] == cv1);
        lemma_owned_program_at(w1, owner_id, name, n);
    }

    // Second upload: the program now exists, so it is updated in place and
    // no record of any kind is created.
    assert(w1.players == w.players);
    lemma_active_at(w1, identity, i);
    let b = w1.owned_program_at(owner_id, name);
    assert(0 <= b < w1.programs.len() && w1.programs[b].owner_id == owner_id && w1.programs[b].name
        == name);
    let code_id2 = w1.programs[b].code_id;
    let cv2 = CodeV {
        file_path: path2,
        code_content: content2,
        last_updated: t2,
        ..w1.programs[b]
    };
    lemma_program_update_wf(w1, b, cv2);
    let wq = WorldV { programs: w1.programs.update(b, cv2), ..w1 };
    let w2 = w1.upload_step(identity, name, path2, content2, t2).0;
    if w1.has_state(code_id2) {
        let j = w1.state_at(code_id2);
        assert(0 <= j < w1.states.len() && w1.states[j].code_id == code_id2);
        let sv = StateV {
            is_running: false,
            error_message: "code updated, awaiting execution"@,
            last_updated: t2,
            ..w1.states[j]
        };
        lemma_state_update_wf(wq, j, sv);
    }
    assert(w2.wf());
    assert(w2.programs[b] == cv2);
    lemma_owned_program_at(w2, owner_id, name, b);
}

/// Starting a program on behalf of a caller that is not its owner fails
/// with `PermissionDenied` and changes nothing — in particular no running
/// flag moves.
pub proof fn lemma_start_non_owner(w: WorldV, identity: u64, code_id: u32, now: u64)
    requires
        w.wf(),
        w.has_program(code_id),
        w.has_active(identity),
        w.players[w.active_at(identity)].player_id != w.programs[w.program_at(code_id)].owner_id,
    ensures
        w.start_step(identity, code_id, now).0 == w,
        w.start_step(identity, code_id, now).1 == Err::<(), WorldError>(
            WorldError::PermissionDenied,
        ),
{
}

/// On a program without a run state, stop refuses with `NotFound` and
/// changes nothing, while start — by the same owner — succeeds and creates
/// a running record.
pub proof fn lemma_stop_missing_start_creates(w: WorldV, identity: u64, code_id: u32, now: u64)
    requires
        w.wf(),
        w.has_program(code_id),
        w.has_active(identity),
        w.players[w.active_at(identity)].player_id == w.programs[w.program_at(code_id)].owner_id,
        !w.has_state(code_id),
        w.next_state_id < u32::MAX,
    ensures
        w.stop_step(identity, code_id, now).0 == w,
        w.stop_step(identity, code_id, now).1 == Err::<(), WorldError>(WorldError::NotFound),
        w.start_step(identity, code_id, now).1 == Ok::<(), WorldError>(()),
        ({
            let w2 = w.start_step(identity, code_id, now).0;
            w2.has_state(code_id) && w2.states[w2.state_at(code_id)].is_running
        }),
{
    let sv = StateV {
        state_id: w.next_state_id,
        code_id,
        left_motor_speed: ZERO_BITS,
        right_motor_speed: ZERO_BITS,
        error_message: "starting execution"@,
        last_updated: now,
        is_running: true,
    };
    lemma_zero_motor_clamped();
    lemma_state_push_wf(w, sv);
    let w2 = w.start_step(identity, code_id, now).0;
    let n = w.states.len() as int;
    assert(w2.states[n] == sv);
    lemma_state_at(w2, code_id, n);
}

} // verus!
