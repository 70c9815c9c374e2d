use battle_royale::match_types::{
    physics_error, BattleMatchId, EliminationCause, MatchCommand, MatchError, MatchPhase,
    DROP_DURATION_TICKS, FINAL_STORM_RADIUS_UNITS, INITIAL_STORM_RADIUS_UNITS,
    LOBBY_COUNTDOWN_TICKS, MAX_PLAYERS_PER_MATCH, STORM_DELAY_TICKS, STORM_SHRINK_DURATION_TICKS,
};
use battle_royale::rules::BodyState;
use battle_royale::simulation::{
    body_id, movement_velocity_of, spawn_position_of, storm_center_of, BattleRoyaleMatch,
};

/// A frictionless, collision-free stand-in for the physics world: each alive body moves by
/// the velocity it was given.
fn physics_bodies(simulation: &BattleRoyaleMatch) -> Vec<BodyState> {
    let plan = simulation.movement_velocities();
    simulation
        .snapshot()
        .players
        .iter()
        .filter(|player| player.alive)
        .map(|player| {
            let velocity = plan
                .iter()
                .find(|(id, _)| *id == player.player_id)
                .map(|(_, velocity)| *velocity)
                .unwrap_or([0, 0, 0]);
            BodyState {
                player_id: player.player_id,
                position: [
                    player.position[0] + velocity[0],
                    player.position[1] + velocity[1],
                    player.position[2] + velocity[2],
                ],
                velocity,
            }
        })
        .collect()
}

fn advance(simulation: &mut BattleRoyaleMatch) -> Result<(), MatchError> {
    let bodies = physics_bodies(simulation);
    simulation.advance_tick(&bodies)
}

fn start_combat(simulation: &mut BattleRoyaleMatch) {
    simulation.add_player(1).unwrap();
    simulation.add_player(2).unwrap();
    for _ in 0..LOBBY_COUNTDOWN_TICKS {
        advance(simulation).unwrap();
    }
    assert_eq!(simulation.phase(), MatchPhase::Drop);
    for _ in 0..DROP_DURATION_TICKS {
        advance(simulation).unwrap();
    }
    assert_eq!(simulation.phase(), MatchPhase::Combat);
}

#[test]
fn lobby_countdown_closes_admission_deterministically() {
    let mut simulation = BattleRoyaleMatch::new(BattleMatchId::new(7));
    simulation.add_player(1).unwrap();
    for _ in 0..(LOBBY_COUNTDOWN_TICKS + 5) {
        advance(&mut simulation).unwrap();
    }
    assert_eq!(simulation.phase(), MatchPhase::Waiting);

    simulation.add_player(2).unwrap();
    for _ in 0..(LOBBY_COUNTDOWN_TICKS - 1) {
        advance(&mut simulation).unwrap();
    }
    assert_eq!(simulation.phase(), MatchPhase::Waiting);
    advance(&mut simulation).unwrap();

    assert_eq!(simulation.phase(), MatchPhase::Drop);
    assert_eq!(
        simulation.add_player(3).unwrap_err().message(),
        "match admission is closed"
    );
}

#[test]
fn stale_commands_fail_closed_and_valid_movement_advances() {
    let mut simulation = BattleRoyaleMatch::new(BattleMatchId::new(9));
    simulation.add_player(1).unwrap();
    simulation
        .apply_command(1, 1, MatchCommand::SetMovement { x: 1, z: 0 })
        .unwrap();
    advance(&mut simulation).unwrap();

    let snapshot = simulation.snapshot();
    assert!(snapshot.players[0].position[0] > -3_600);
    assert_eq!(
        simulation
            .apply_command(1, 1, MatchCommand::SetMovement { x: 0, z: 1 })
            .unwrap_err()
            .message(),
        "command sequence is stale"
    );
}

#[test]
fn safe_zone_schedule_is_deterministic_and_monotonic() {
    let mut simulation = BattleRoyaleMatch::new(BattleMatchId::new(11));
    start_combat(&mut simulation);

    let before = simulation.storm_snapshot();
    for _ in 0..(STORM_DELAY_TICKS + 1) {
        advance(&mut simulation).unwrap();
    }
    let shrinking = simulation.storm_snapshot();
    for _ in 0..STORM_SHRINK_DURATION_TICKS {
        if simulation.phase() == MatchPhase::Finished {
            break;
        }
        advance(&mut simulation).unwrap();
    }
    let after = simulation.storm_snapshot();

    assert_eq!(before.radius, INITIAL_STORM_RADIUS_UNITS);
    assert!(shrinking.damage_active);
    assert!(shrinking.radius < before.radius);
    assert!(after.radius <= shrinking.radius);
    assert!(after.radius >= FINAL_STORM_RADIUS_UNITS);
    assert_eq!(
        storm_center_of(BattleMatchId::new(11)),
        storm_center_of(BattleMatchId::new(11))
    );
}

#[test]
fn session_retirement_is_terminal_only_after_match_start() {
    let mut lobby = BattleRoyaleMatch::new(BattleMatchId::new(13));
    lobby.add_player(1).unwrap();
    assert!(lobby.remove_player(1));
    assert_eq!(lobby.player_count(), 0);

    let mut active = BattleRoyaleMatch::new(BattleMatchId::new(14));
    start_combat(&mut active);
    assert!(active.remove_player(1));
    let snapshot = active.snapshot();
    let eliminated = snapshot
        .players
        .iter()
        .find(|player| player.player_id == 1)
        .unwrap();
    assert!(!eliminated.alive);
    assert_eq!(
        eliminated.elimination_cause,
        Some(EliminationCause::SessionExpired)
    );
    assert_eq!(active.phase(), MatchPhase::Finished);
    assert_eq!(active.winner(), Some(2));
}

#[test]
fn player_projection_keeps_sequence_private_to_the_addressed_player() {
    let mut simulation = BattleRoyaleMatch::new(BattleMatchId::new(15));
    simulation.add_player(1).unwrap();
    simulation.add_player(2).unwrap();
    simulation
        .apply_command(1, 7, MatchCommand::SetMovement { x: 1, z: 0 })
        .unwrap();

    let canonical = simulation.snapshot();
    let projection = simulation.snapshot_for_player(1).unwrap();

    assert_eq!(canonical.players[0].last_sequence, 7);
    assert_eq!(projection.acknowledged_sequence, 7);
    assert_eq!(projection.players.len(), 2);
}

#[test]
fn admission_errors_name_their_cause() {
    let mut simulation = BattleRoyaleMatch::new(BattleMatchId::new(20));
    simulation.add_player(5).unwrap();
    assert_eq!(
        simulation.add_player(5).unwrap_err().message(),
        "player already exists in match"
    );
    for id in 100..199 {
        simulation.add_player(id).unwrap();
    }
    assert_eq!(simulation.player_count(), MAX_PLAYERS_PER_MATCH);
    assert_eq!(
        simulation.add_player(1_000).unwrap_err().message(),
        "match player capacity reached"
    );
}

#[test]
fn full_lobby_drops_on_the_next_tick() {
    let mut simulation = BattleRoyaleMatch::new(BattleMatchId::new(21));
    for id in 1..=100 {
        simulation.add_player(id).unwrap();
    }
    advance(&mut simulation).unwrap();
    assert_eq!(simulation.phase(), MatchPhase::Drop);
}

#[test]
fn players_are_listed_by_id_and_take_the_lowest_free_slot() {
    let mut simulation = BattleRoyaleMatch::new(BattleMatchId::new(22));
    simulation.add_player(30).unwrap();
    simulation.add_player(10).unwrap();
    simulation.add_player(20).unwrap();
    assert!(simulation.remove_player(10));
    simulation.add_player(5).unwrap();
    let snapshot = simulation.snapshot();
    let ids: Vec<u32> = snapshot.players.iter().map(|p| p.player_id).collect();
    assert_eq!(ids, vec![5, 20, 30]);
    assert_eq!(snapshot.players[0].spawn_slot, 1);
    assert_eq!(snapshot.players[0].position, spawn_position_of(1));
    assert_eq!(spawn_position_of(0), [-3_600, 0, -3_600]);
    assert_eq!(spawn_position_of(99), [3_600, 0, 3_600]);
    assert_eq!(spawn_position_of(12), [-2_000, 0, -2_800]);
    assert!(!simulation.remove_player(10));
}

#[test]
fn command_errors_name_their_cause() {
    let mut simulation = BattleRoyaleMatch::new(BattleMatchId::new(23));
    simulation.add_player(1).unwrap();
    assert_eq!(
        simulation
            .apply_command(2, 1, MatchCommand::SetMovement { x: 0, z: 0 })
            .unwrap_err()
            .message(),
        "unknown player"
    );
    assert_eq!(
        simulation
            .apply_command(1, 0, MatchCommand::SetMovement { x: 0, z: 0 })
            .unwrap_err()
            .message(),
        "command sequence is stale"
    );
    assert_eq!(
        simulation
            .apply_command(1, 1, MatchCommand::SetMovement { x: 2, z: 0 })
            .unwrap_err()
            .message(),
        "movement components must be between -1 and 1"
    );
    // A rejected command does not consume its sequence.
    simulation
        .apply_command(1, 1, MatchCommand::SetMovement { x: 1, z: 1 })
        .unwrap();
    let player = simulation.snapshot().players[0];
    assert_eq!(player.movement_x, 1);
    assert_eq!(player.movement_z, 1);
    assert_eq!(player.last_sequence, 1);
    assert_eq!(movement_velocity_of(&player), [13, 0, 13]);
}

#[test]
fn eliminated_players_and_finished_matches_refuse_commands() {
    let mut simulation = BattleRoyaleMatch::new(BattleMatchId::new(24));
    simulation.add_player(1).unwrap();
    simulation.add_player(2).unwrap();
    simulation.add_player(3).unwrap();
    for _ in 0..(LOBBY_COUNTDOWN_TICKS + DROP_DURATION_TICKS) {
        advance(&mut simulation).unwrap();
    }
    assert_eq!(simulation.phase(), MatchPhase::Combat);
    assert!(simulation.remove_player(3));
    assert_eq!(simulation.phase(), MatchPhase::Combat);
    assert_eq!(simulation.alive_count(), 2);
    assert_eq!(
        simulation
            .apply_command(3, 1, MatchCommand::SetMovement { x: 1, z: 0 })
            .unwrap_err()
            .message(),
        "player is eliminated"
    );
    assert!(simulation.remove_player(2));
    assert_eq!(simulation.phase(), MatchPhase::Finished);
    assert_eq!(simulation.winner(), Some(1));
    assert_eq!(
        simulation
            .apply_command(1, 1, MatchCommand::SetMovement { x: 1, z: 0 })
            .unwrap_err()
            .message(),
        "match is finished"
    );
    // Finished is terminal: only the tick moves.
    let before = simulation.snapshot();
    simulation.advance_tick(&[]).unwrap();
    let after = simulation.snapshot();
    assert_eq!(after.tick, before.tick + 1);
    assert_eq!(after.players, before.players);
    assert_eq!(after.phase, MatchPhase::Finished);
}

#[test]
fn missing_body_fails_the_tick_without_change() {
    let mut simulation = BattleRoyaleMatch::new(BattleMatchId::new(25));
    simulation.add_player(1).unwrap();
    let before = simulation.snapshot();
    assert_eq!(
        simulation.advance_tick(&[]).unwrap_err().message(),
        "player physics body is missing"
    );
    assert_eq!(simulation.snapshot(), before);
}

#[test]
fn unknown_viewer_has_no_projection_and_distant_players_are_hidden() {
    let mut simulation = BattleRoyaleMatch::new(BattleMatchId::new(26));
    simulation.add_player(1).unwrap();
    simulation.add_player(2).unwrap();
    assert_eq!(
        simulation.snapshot_for_player(9).unwrap_err().message(),
        "unknown player"
    );
    // Move player 2 far away through the physics result.
    let bodies = vec![
        BodyState { player_id: 1, position: [0, 0, 0], velocity: [0, 0, 0] },
        BodyState { player_id: 2, position: [20_001, 0, 0], velocity: [0, 0, 0] },
    ];
    simulation.advance_tick(&bodies).unwrap();
    let projection = simulation.snapshot_for_player(1).unwrap();
    assert_eq!(projection.players.len(), 1);
    assert_eq!(projection.players[0].player_id, 1);
    let bodies = vec![
        BodyState { player_id: 1, position: [0, 0, 0], velocity: [0, 0, 0] },
        BodyState { player_id: 2, position: [12_000, 0, 16_000], velocity: [0, 0, 0] },
    ];
    simulation.advance_tick(&bodies).unwrap();
    assert_eq!(simulation.snapshot_for_player(1).unwrap().players.len(), 2);
}

#[test]
fn storm_radius_follows_the_integer_schedule() {
    let mut simulation = BattleRoyaleMatch::new(BattleMatchId::new(27));
    start_combat(&mut simulation);
    assert!(!simulation.storm_snapshot().damage_active);
    for _ in 0..(STORM_DELAY_TICKS + 450) {
        if simulation.phase() == MatchPhase::Finished {
            break;
        }
        advance(&mut simulation).unwrap();
    }
    if simulation.phase() != MatchPhase::Finished {
        // 450 ticks into a 900-tick shrink from 50 000 to 2 000.
        assert_eq!(simulation.storm_snapshot().radius, 26_000);
    }
}

#[test]
fn storm_eliminates_players_left_outside() {
    let mut simulation = BattleRoyaleMatch::new(BattleMatchId::new(28));
    start_combat(&mut simulation);
    for _ in 0..(STORM_DELAY_TICKS + 1) {
        advance(&mut simulation).unwrap();
    }
    // Carry player 2 far outside the safe zone; player 1 stays at the center.
    let center = simulation.storm_snapshot().center;
    let mut ticks = 0;
    while simulation.phase() == MatchPhase::Combat {
        let bodies = vec![
            BodyState { player_id: 1, position: [center[0], 0, center[1]], velocity: [0, 0, 0] },
            BodyState { player_id: 2, position: [900_000, 0, 900_000], velocity: [0, 0, 0] },
        ];
        simulation.advance_tick(&bodies).unwrap();
        ticks += 1;
    }
    assert_eq!(ticks, 50);
    assert_eq!(simulation.winner(), Some(1));
    let loser = simulation.snapshot().players[1];
    assert!(!loser.alive);
    assert_eq!(loser.health, 0);
    assert_eq!(loser.elimination_cause, Some(EliminationCause::Storm));
}

#[test]
fn body_keys_and_physics_errors() {
    assert_eq!(body_id(7), 1_000_007);
    assert_eq!(
        physics_error("body exists").message(),
        "physics error: body exists"
    );
    assert_eq!(MatchError::new("x").message(), "x");
    assert_eq!(BattleMatchId::new(42).get(), 42);
}

/// The state invariant of a reachable match, checked on a snapshot.
fn assert_consistent(simulation: &BattleRoyaleMatch) {
    let snapshot = simulation.snapshot();
    let alive = snapshot.players.iter().filter(|player| player.alive).count();
    assert_eq!(simulation.alive_count(), alive);
    assert!(alive <= snapshot.players.len());
    for player in &snapshot.players {
        assert_eq!(player.alive, player.elimination_tick.is_none());
        assert_eq!(player.alive, player.elimination_cause.is_none());
        if player.alive {
            assert!(player.health > 0 && player.health <= 100);
        } else {
            assert_eq!(player.health, 0);
            assert_eq!((player.movement_x, player.movement_z), (0, 0));
            assert_eq!(player.velocity, [0, 0, 0]);
            assert!(player.elimination_tick.unwrap() <= snapshot.tick);
        }
    }
    match snapshot.phase {
        MatchPhase::Waiting => {
            assert!(snapshot.players.iter().all(|player| player.alive));
            assert_eq!(snapshot.lobby_ready_tick.is_some(), snapshot.players.len() >= 2);
        }
        _ => assert_eq!(snapshot.lobby_ready_tick, None),
    }
    if snapshot.winner.is_some() {
        assert_eq!(snapshot.phase, MatchPhase::Finished);
    }
    if snapshot.phase == MatchPhase::Combat {
        assert!(alive >= 2);
        assert_eq!(
            simulation.storm_snapshot(),
            storm_after(simulation.current_tick() - snapshot.phase_started_tick, snapshot.storm.center)
        );
    }
    if snapshot.phase == MatchPhase::Finished {
        assert!(alive <= 1);
    }
}

/// The safe zone `elapsed` ticks into combat.
fn storm_after(elapsed: u64, center: [i32; 2]) -> battle_royale::match_types::StormSnapshot {
    let shrink = elapsed.saturating_sub(STORM_DELAY_TICKS).min(STORM_SHRINK_DURATION_TICKS) as i32;
    battle_royale::match_types::StormSnapshot {
        center,
        radius: INITIAL_STORM_RADIUS_UNITS - 48_000 * shrink / 900,
        damage_active: elapsed > STORM_DELAY_TICKS,
    }
}

#[test]
fn every_reached_state_is_consistent() {
    let mut simulation = BattleRoyaleMatch::new(BattleMatchId::new(31));
    assert_consistent(&simulation);
    for id in [5, 3, 9] {
        simulation.add_player(id).unwrap();
        assert_consistent(&simulation);
    }
    assert!(simulation.remove_player(9));
    assert_consistent(&simulation);
    simulation.add_player(9).unwrap();
    simulation
        .apply_command(3, 1, MatchCommand::SetMovement { x: 1, z: -1 })
        .unwrap();
    while simulation.phase() != MatchPhase::Combat {
        advance(&mut simulation).unwrap();
        assert_consistent(&simulation);
    }
    assert!(simulation.remove_player(9));
    assert_consistent(&simulation);
    let center = simulation.storm_snapshot().center;
    while simulation.phase() == MatchPhase::Combat {
        let bodies = vec![
            BodyState { player_id: 3, position: [center[0], 0, center[1]], velocity: [0, 0, 0] },
            BodyState { player_id: 5, position: [900_000, 0, 900_000], velocity: [0, 0, 0] },
        ];
        simulation.advance_tick(&bodies).unwrap();
        assert_consistent(&simulation);
    }
    assert_eq!(simulation.winner(), Some(3));
    assert!(simulation.remove_player(3));
    advance(&mut simulation).unwrap();
    assert_consistent(&simulation);
}
