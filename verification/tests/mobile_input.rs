use battle_royale::actions::{battle_royale_actions, InputDevice, ACTION_LOOK, ACTION_MENU, ACTION_MOVE};
use battle_royale::match_types::MatchCommand;
use battle_royale::mobile::{
    quantize_mobile_stick, MobileMovementAdapter, MobileMovementIntent, MobileStickSample,
    MOBILE_STICK_SCALE,
};

#[test]
fn action_registry_is_valid_and_exposes_pointer_actions_for_mobile() {
    let actions = battle_royale_actions();

    assert_eq!(actions.len(), 3);
    assert!(actions
        .iter()
        .any(|action| action.id == ACTION_MOVE && action.allowed_devices.contains(&InputDevice::Pointer)));
    assert!(actions
        .iter()
        .any(|action| action.id == ACTION_LOOK && action.allowed_devices.contains(&InputDevice::Pointer)));
    assert!(actions.iter().any(|action| action.id == ACTION_MENU));
}

#[test]
fn radial_dead_zone_does_not_emit_movement() {
    let previous = MobileMovementIntent::stopped();

    assert_eq!(
        quantize_mobile_stick(MobileStickSample::new(200, -200), previous),
        MobileMovementIntent::stopped()
    );
    assert_eq!(
        quantize_mobile_stick(MobileStickSample::new(420, 0), previous),
        MobileMovementIntent::stopped()
    );
}

#[test]
fn mobile_axes_map_to_existing_world_movement_axes() {
    assert_eq!(
        quantize_mobile_stick(
            MobileStickSample::new(MOBILE_STICK_SCALE, 0),
            MobileMovementIntent::stopped(),
        ),
        MobileMovementIntent { x: 1, z: 0 }
    );
    assert_eq!(
        quantize_mobile_stick(
            MobileStickSample::new(0, -MOBILE_STICK_SCALE),
            MobileMovementIntent::stopped(),
        ),
        MobileMovementIntent { x: 0, z: 1 }
    );
    assert_eq!(
        quantize_mobile_stick(
            MobileStickSample::new(-MOBILE_STICK_SCALE, MOBILE_STICK_SCALE),
            MobileMovementIntent::stopped(),
        ),
        MobileMovementIntent { x: -1, z: -1 }
    );
}

#[test]
fn diagonal_hysteresis_avoids_direction_chatter() {
    let cardinal = quantize_mobile_stick(
        MobileStickSample::new(1_000, -550),
        MobileMovementIntent::stopped(),
    );
    assert_eq!(cardinal, MobileMovementIntent { x: 1, z: 0 });

    let diagonal = quantize_mobile_stick(MobileStickSample::new(1_000, -650), cardinal);
    assert_eq!(diagonal, MobileMovementIntent { x: 1, z: 1 });

    let retained = quantize_mobile_stick(MobileStickSample::new(1_000, -500), diagonal);
    assert_eq!(retained, MobileMovementIntent { x: 1, z: 1 });

    let exited = quantize_mobile_stick(MobileStickSample::new(1_000, -400), retained);
    assert_eq!(exited, MobileMovementIntent { x: 1, z: 0 });
}

#[test]
fn adapter_only_emits_authoritative_commands_when_quantized_intent_changes() {
    let mut adapter = MobileMovementAdapter::default();

    assert_eq!(
        adapter.update(MobileStickSample::new(900, 0)),
        Some(MatchCommand::SetMovement { x: 1, z: 0 })
    );
    assert_eq!(adapter.update(MobileStickSample::new(700, 50)), None);
    assert_eq!(
        adapter.update(MobileStickSample::new(700, -700)),
        Some(MatchCommand::SetMovement { x: 1, z: 1 })
    );
    assert_eq!(
        adapter.release(),
        Some(MatchCommand::SetMovement { x: 0, z: 0 })
    );
    assert_eq!(adapter.release(), None);
}

#[test]
fn samples_are_bounded_before_quantization() {
    assert_eq!(
        quantize_mobile_stick(
            MobileStickSample::new(50_000, -50_000),
            MobileMovementIntent::stopped(),
        ),
        MobileMovementIntent { x: 1, z: 1 }
    );
}

#[test]
fn dominant_axis_wins_ties_toward_x_and_just_outside_dead_zone_moves() {
    assert_eq!(
        quantize_mobile_stick(MobileStickSample::new(421, 0), MobileMovementIntent::stopped()),
        MobileMovementIntent { x: 1, z: 0 }
    );
    assert_eq!(
        quantize_mobile_stick(MobileStickSample::new(0, 421), MobileMovementIntent::stopped()),
        MobileMovementIntent { x: 0, z: -1 }
    );
    assert_eq!(
        quantize_mobile_stick(MobileStickSample::new(-600, 600), MobileMovementIntent::stopped()),
        MobileMovementIntent { x: -1, z: -1 }
    );
}

#[test]
fn release_when_stopped_emits_nothing_and_current_tracks_emitted_intent() {
    let mut adapter = MobileMovementAdapter::default();
    assert_eq!(adapter.release(), None);
    assert_eq!(adapter.current(), MobileMovementIntent::stopped());
    adapter.update(MobileStickSample::new(-900, 0));
    assert_eq!(adapter.current(), MobileMovementIntent { x: -1, z: 0 });
    assert_eq!(
        adapter.current().command(),
        MatchCommand::SetMovement { x: -1, z: 0 }
    );
    assert_eq!(MobileStickSample::zero(), MobileStickSample::new(0, 0));
    assert_eq!(MobileStickSample::default(), MobileStickSample::zero());
    assert_eq!(MobileMovementIntent::default(), MobileMovementIntent::stopped());
}
