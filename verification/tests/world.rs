//! The command layer, exercised on concrete scenarios.

use solarville::records::{Vector3, WorldError};
use solarville::world::World;

fn vec3(x: f32, y: f32, z: f32) -> Vector3 {
    Vector3 { x: x.to_bits(), y: y.to_bits(), z: z.to_bits() }
}

#[test]
fn init_runs_once_and_only_once() {
    let mut w = World::new();
    assert_eq!(w.init(), Ok(()));
    let config = w.world_config.as_ref().expect("configuration singleton");
    assert_eq!(config.id, 0);
    assert_eq!(config.world_name, "Solarville");
    let timer = w.update_player_timer.as_ref().expect("timer record");
    assert_eq!(timer.interval_micros, 100_000);
    assert_eq!(w.init(), Err(WorldError::AlreadyInitialized));
}

#[test]
fn connect_creates_fresh_players_with_monotone_ids() {
    let mut w = World::new();
    let a = w.connect(11, 1000);
    assert_eq!(a.player_id, 1);
    assert_eq!(a.name, "");
    assert_eq!(a.position, vec3(0.0, 0.0, 0.0));
    assert_eq!(a.last_update, 1000);
    let b = w.connect(22, 1001);
    assert_eq!(b.player_id, 2);
    assert_eq!(w.player_count(), 2);
    assert_eq!(w.logged_out_player_count(), 0);
}

#[test]
fn reconnect_restores_display_id_and_name() {
    let mut w = World::new();
    let first = w.connect(7, 10);
    let first_id: u32 = first.player_id;
    w.register_player(7, "Ada".to_string(), vec3(1.0, 2.0, 3.0), vec3(0.0, 0.0, 0.0), 20);
    w.disconnect(7);
    assert!(w.get_player(7).is_none());
    let dormant = w.get_logged_out_player(7).expect("dormant record kept");
    assert_eq!(dormant.player_id, first_id);
    let back = w.connect(7, 30);
    assert_eq!(back.player_id, first_id);
    assert_eq!(back.name, "Ada");
    assert_eq!(back.position, vec3(1.0, 2.0, 3.0));
    assert!(w.get_logged_out_player(7).is_none());
    assert_eq!(w.player_count(), 1);
}

#[test]
fn disconnect_of_unknown_identity_is_a_no_op() {
    let mut w = World::new();
    w.connect(1, 5);
    w.disconnect(99);
    assert_eq!(w.player_count(), 1);
    assert_eq!(w.logged_out_player_count(), 0);
}

#[test]
fn update_position_on_unknown_identity_fails_and_mutates_nothing() {
    let mut w = World::new();
    w.connect(1, 5);
    let before_players: usize = w.player_count();
    let r = w.update_player_position(42, vec3(1.0, 1.0, 1.0), vec3(0.0, 0.0, 0.0), 9);
    assert_eq!(r, Err(WorldError::NotFound));
    assert_eq!(w.player_count(), before_players);
    let p = w.get_player(1).expect("existing player untouched");
    assert_eq!(p.position, vec3(0.0, 0.0, 0.0));
    assert_eq!(p.last_update, 5);
}

#[test]
fn update_position_overwrites_pose_and_keeps_name() {
    let mut w = World::new();
    w.connect(1, 5);
    w.register_player(1, "Ada".to_string(), vec3(0.0, 0.0, 0.0), vec3(0.0, 0.0, 0.0), 6);
    let r = w.update_player_position(1, vec3(4.0, 5.0, 6.0), vec3(0.0, 90.0, 0.0), 7);
    assert_eq!(r, Ok(()));
    let p = w.get_player(1).expect("player");
    assert_eq!(p.name, "Ada");
    assert_eq!(p.position, vec3(4.0, 5.0, 6.0));
    assert_eq!(p.rotation, vec3(0.0, 90.0, 0.0));
    assert_eq!(p.last_update, 7);
}

#[test]
fn register_upserts_existing_and_creates_unknown() {
    let mut w = World::new();
    let a = w.connect(1, 5);
    w.register_player(1, "Ada".to_string(), vec3(1.0, 0.0, 0.0), vec3(0.0, 0.0, 0.0), 6);
    assert_eq!(w.player_count(), 1);
    let p = w.get_player(1).expect("player");
    assert_eq!(p.player_id, a.player_id);
    assert_eq!(p.name, "Ada");
    w.register_player(2, "Bob".to_string(), vec3(0.0, 0.0, 0.0), vec3(0.0, 0.0, 0.0), 7);
    assert_eq!(w.player_count(), 2);
    let q = w.get_player(2).expect("player");
    assert_eq!(q.name, "Bob");
    assert_ne!(q.player_id, a.player_id);
}

#[test]
fn upload_for_unknown_identity_fails() {
    let mut w = World::new();
    let r = w.update_microprocess_code(
        1,
        "nav".to_string(),
        "/a.py".to_string(),
        "forward()".to_string(),
        10,
    );
    assert_eq!(r, Err(WorldError::NotFound));
    assert_eq!(w.microprocess_code_count(), 0);
    assert_eq!(w.microprocess_state_count(), 0);
}

#[test]
fn upload_twice_keeps_one_program_and_one_state() {
    let mut w = World::new();
    let a = w.connect(1, 5);
    let owner: u32 = a.player_id;
    assert_eq!(
        w.update_microprocess_code(
            1,
            "nav".to_string(),
            "/a.py".to_string(),
            "forward()".to_string(),
            10,
        ),
        Ok(()),
    );
    assert_eq!(w.microprocess_code_count(), 1);
    assert_eq!(w.microprocess_state_count(), 1);
    assert_eq!(
        w.update_microprocess_code(
            1,
            "nav".to_string(),
            "/b.py".to_string(),
            "backward()".to_string(),
            20,
        ),
        Ok(()),
    );
    assert_eq!(w.microprocess_code_count(), 1);
    assert_eq!(w.microprocess_state_count(), 1);
    let name = "nav".to_string();
    let code = w.get_microprocess_code(owner, &name).expect("program");
    assert_eq!(code.file_path, "/b.py");
    assert_eq!(code.code_content, "backward()");
    assert_eq!(code.last_updated, 20);
    let st = w.get_microprocess_state(code.code_id).expect("run state");
    assert!(!st.is_running);
    assert_eq!(st.error_message, "code updated, awaiting execution");
    assert_eq!(st.last_updated, 20);
}

#[test]
fn set_state_clamps_motor_commands_exactly() {
    let mut w = World::new();
    let a = w.connect(1, 5);
    w.update_microprocess_code(
        1,
        "nav".to_string(),
        "/a.py".to_string(),
        "forward()".to_string(),
        10,
    )
    .expect("upload");
    let name = "nav".to_string();
    let code_id: u32 = w.get_microprocess_code(a.player_id, &name).expect("program").code_id;
    let r = w.update_microprocess_state(
        code_id,
        (2.5f32).to_bits(),
        (-3.0f32).to_bits(),
        "ok".to_string(),
        true,
        20,
    );
    assert_eq!(r, Ok(()));
    let st = w.get_microprocess_state(code_id).expect("run state");
    assert_eq!(st.left_motor_speed, (1.0f32).to_bits());
    assert_eq!(st.right_motor_speed, (-1.0f32).to_bits());
    assert_eq!(st.error_message, "ok");
    assert!(st.is_running);
    assert_eq!(w.microprocess_state_count(), 1);
}

#[test]
fn set_state_on_missing_program_fails() {
    let mut w = World::new();
    let r = w.update_microprocess_state(77, 0, 0, "ok".to_string(), false, 5);
    assert_eq!(r, Err(WorldError::NotFound));
    assert_eq!(w.microprocess_state_count(), 0);
}

#[test]
fn start_by_non_owner_is_denied() {
    let mut w = World::new();
    let a = w.connect(1, 5);
    w.connect(2, 6);
    w.update_microprocess_code(
        1,
        "nav".to_string(),
        "/a.py".to_string(),
        "forward()".to_string(),
        10,
    )
    .expect("upload");
    let name = "nav".to_string();
    let code_id: u32 = w.get_microprocess_code(a.player_id, &name).expect("program").code_id;
    let r = w.start_microprocess(2, code_id, 20);
    assert_eq!(r, Err(WorldError::PermissionDenied));
    let st = w.get_microprocess_state(code_id).expect("run state");
    assert!(!st.is_running);
    assert_eq!(st.error_message, "awaiting execution");
}

#[test]
fn start_and_stop_require_an_existing_program() {
    let mut w = World::new();
    w.connect(1, 5);
    assert_eq!(w.start_microprocess(1, 9, 6), Err(WorldError::NotFound));
    assert_eq!(w.stop_microprocess(1, 9, 6), Err(WorldError::NotFound));
}

#[test]
fn stop_without_state_fails_while_start_creates_one() {
    // A run state can be missing only for an externally injected program:
    // the command layer always creates one eagerly.  Assemble such a store
    // directly.
    let mut w = World::new();
    let a = w.connect(1, 5);
    w.microprocess_codes.push(solarville::records::MicroprocessCode {
        code_id: 1,
        owner_id: a.player_id,
        name: "nav".to_string(),
        file_path: "/a.py".to_string(),
        code_content: "forward()".to_string(),
        last_updated: 5,
    });
    w.next_code_id = 2;
    assert_eq!(w.microprocess_state_count(), 0);
    assert_eq!(w.stop_microprocess(1, 1, 6), Err(WorldError::NotFound));
    assert_eq!(w.microprocess_state_count(), 0);
    assert_eq!(w.start_microprocess(1, 1, 7), Ok(()));
    let st = w.get_microprocess_state(1).expect("created run state");
    assert!(st.is_running);
    assert_eq!(st.left_motor_speed, (0.0f32).to_bits());
    assert_eq!(st.right_motor_speed, (0.0f32).to_bits());
    assert_eq!(st.error_message, "starting execution");
}

#[test]
fn full_run_control_scenario() {
    let mut w = World::new();
    w.connect(1, 1);
    w.register_player(1, "Ada".to_string(), vec3(0.0, 0.0, 0.0), vec3(0.0, 0.0, 0.0), 2);
    let owner: u32 = w.get_player(1).expect("player A").player_id;
    assert_eq!(
        w.update_microprocess_code(
            1,
            "nav".to_string(),
            "/a.py".to_string(),
            "forward()".to_string(),
            3,
        ),
        Ok(()),
    );
    assert_eq!(w.microprocess_code_count(), 1);
    assert_eq!(w.microprocess_state_count(), 1);
    let name = "nav".to_string();
    let code_id: u32 = w.get_microprocess_code(owner, &name).expect("program").code_id;
    {
        let st = w.get_microprocess_state(code_id).expect("run state");
        assert!(!st.is_running);
        assert_eq!(st.left_motor_speed, (0.0f32).to_bits());
        assert_eq!(st.right_motor_speed, (0.0f32).to_bits());
    }
    assert_eq!(w.start_microprocess(1, code_id, 4), Ok(()));
    assert!(w.get_microprocess_state(code_id).expect("run state").is_running);
    assert_eq!(
        w.update_microprocess_state(
            code_id,
            (2.0f32).to_bits(),
            (-2.0f32).to_bits(),
            "ok".to_string(),
            true,
            5,
        ),
        Ok(()),
    );
    {
        let st = w.get_microprocess_state(code_id).expect("run state");
        assert_eq!(st.left_motor_speed, (1.0f32).to_bits());
        assert_eq!(st.right_motor_speed, (-1.0f32).to_bits());
    }
    assert_eq!(w.stop_microprocess(1, code_id, 6), Ok(()));
    {
        let st = w.get_microprocess_state(code_id).expect("run state");
        assert!(!st.is_running);
        assert_eq!(st.left_motor_speed, (0.0f32).to_bits());
        assert_eq!(st.right_motor_speed, (0.0f32).to_bits());
        assert_eq!(st.error_message, "execution stopped");
    }

    // Player B, not the owner, cannot start A's program, and the stopped
    // state is exactly as the previous step left it.
    w.connect(2, 7);
    assert_eq!(w.start_microprocess(2, code_id, 8), Err(WorldError::PermissionDenied));
    let st = w.get_microprocess_state(code_id).expect("run state");
    assert!(!st.is_running);
    assert_eq!(st.left_motor_speed, (0.0f32).to_bits());
    assert_eq!(st.right_motor_speed, (0.0f32).to_bits());
    assert_eq!(st.error_message, "execution stopped");
    assert_eq!(st.last_updated, 6);
}

#[test]
fn replication_tick_leaves_the_store_alone() {
    let mut w = World::new();
    w.init().expect("initialized");
    w.connect(1, 5);
    let timer = *w.update_player_timer.as_ref().expect("timer");
    let before_players: usize = w.player_count();
    assert_eq!(w.update_player_positions(&timer), Ok(()));
    assert_eq!(w.player_count(), before_players);
    assert_eq!(w.get_player(1).expect("player").last_update, 5);
}
