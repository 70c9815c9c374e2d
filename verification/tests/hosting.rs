use battle_royale::hosting::{route_name, validate_match_set, MatchSetError};
use battle_royale::match_types::{BattleMatchId, MatchCommand, MAX_PLAYERS_PER_MATCH};
use battle_royale::protocol::{decode_canonical_snapshot, decode_snapshot, encode_command};
use battle_royale::rules::BodyState;
use battle_royale::server_adapter::BattleRoyaleGameServerAdapter;

const CANONICAL_SNAPSHOT_BUDGET_BYTES: usize = 8 * 1024;
const PLAYER_SNAPSHOT_BUDGET_BYTES: usize = 4 * 1024;
const DETERMINISM_TICKS: usize = 512;

/// A frictionless, collision-free stand-in for the physics world.
fn advance(adapter: &mut BattleRoyaleGameServerAdapter) -> Result<(), String> {
    let simulation = adapter.simulation();
    let plan = simulation.movement_velocities();
    let bodies: Vec<BodyState> = simulation
        .snapshot()
        .players
        .iter()
        .filter(|player| player.alive)
        .map(|player| {
            let velocity = plan
                .iter()
                .find(|(id, _)| *id == player.player_id)
                .map(|(_, velocity)| *velocity)
                .unwrap_or([0, 0, 0]);
            BodyState {
                player_id: player.player_id,
                position: [
                    player.position[0] + velocity[0],
                    player.position[1] + velocity[1],
                    player.position[2] + velocity[2],
                ],
                velocity,
            }
        })
        .collect();
    adapter.advance_tick(&bodies)
}

fn full_match(match_id: BattleMatchId) -> BattleRoyaleGameServerAdapter {
    let mut simulation = BattleRoyaleGameServerAdapter::new(match_id);

    for player_id in 1..=u32::try_from(MAX_PLAYERS_PER_MATCH).unwrap() {
        simulation.add_player(player_id).unwrap();
        let x = match player_id % 3 {
            0 => -1,
            1 => 0,
            _ => 1,
        };
        let z = match (player_id / 3) % 3 {
            0 => -1,
            1 => 0,
            _ => 1,
        };
        simulation
            .apply_command(
                player_id,
                1,
                &encode_command(MatchCommand::SetMovement { x, z }),
            )
            .unwrap();
    }

    simulation
}

#[test]
fn route_ids_are_stable_and_url_safe() {
    assert_eq!(route_name(BattleMatchId::new(0x2a)), "br-000000000000002a");
    assert_eq!(route_name(BattleMatchId::new(u64::MAX)), "br-ffffffffffffffff");
}

#[test]
fn host_rejects_empty_and_duplicate_sets_and_keeps_matches_isolated() {
    assert_eq!(validate_match_set(&vec![]), Err(MatchSetError::Empty));
    assert_eq!(
        validate_match_set(&vec![BattleMatchId::new(4), BattleMatchId::new(4)]),
        Err(MatchSetError::DuplicateMatch(BattleMatchId::new(4)))
    );
    assert_eq!(
        validate_match_set(&vec![
            BattleMatchId::new(9),
            BattleMatchId::new(3),
            BattleMatchId::new(9),
            BattleMatchId::new(3)
        ]),
        Err(MatchSetError::DuplicateMatch(BattleMatchId::new(3)))
    );
    assert_eq!(
        validate_match_set(&vec![BattleMatchId::new(10), BattleMatchId::new(11)]),
        Ok(())
    );

    let mut first = BattleRoyaleGameServerAdapter::new(BattleMatchId::new(10));
    let second = BattleRoyaleGameServerAdapter::new(BattleMatchId::new(11));
    advance(&mut first).unwrap();
    assert_eq!(first.current_tick(), 1);
    assert_eq!(second.current_tick(), 0);
}

#[test]
fn adapter_keeps_canonical_and_player_snapshots_separate() {
    let mut adapter = BattleRoyaleGameServerAdapter::new(BattleMatchId::new(7));
    adapter.add_player(1).unwrap();
    adapter.add_player(2).unwrap();
    let payload = encode_command(MatchCommand::SetMovement { x: 1, z: 0 });
    adapter.apply_command(1, 9, &payload).unwrap();

    let canonical = decode_canonical_snapshot(&adapter.snapshot().payload).unwrap();
    let visible = decode_snapshot(&adapter.snapshot_for(1).unwrap().payload).unwrap();

    assert_eq!(canonical.players.len(), 2);
    assert_eq!(canonical.players[0].last_sequence, 9);
    assert_eq!(visible.acknowledged_sequence, 9);
    assert_eq!(visible.players.len(), 2);
}

#[test]
fn adapter_reports_decode_and_rule_errors_as_messages() {
    let mut adapter = BattleRoyaleGameServerAdapter::new(BattleMatchId::new(8));
    assert_eq!(adapter.tick_hz(), 30);
    assert_eq!(adapter.max_players(), 100);
    adapter.add_player(1).unwrap();
    assert_eq!(
        adapter.apply_command(1, 1, &[1, 0]).unwrap_err(),
        "invalid command length"
    );
    assert_eq!(
        adapter
            .apply_command(2, 1, &encode_command(MatchCommand::SetMovement { x: 0, z: 0 }))
            .unwrap_err(),
        "unknown player"
    );
    assert_eq!(adapter.add_player(1).unwrap_err(), "player already exists in match");
    assert_eq!(adapter.snapshot_for(5).unwrap_err(), "unknown player");
    assert!(adapter.remove_player(1));
    assert_eq!(adapter.simulation().player_count(), 0);
    adapter.simulation_mut().add_player(3).unwrap();
    assert_eq!(adapter.into_simulation().player_count(), 1);
}

#[test]
fn full_capacity_is_real_and_fails_closed_above_one_hundred_players() {
    let mut simulation = full_match(BattleMatchId::new(0x100));

    assert_eq!(simulation.max_players(), MAX_PLAYERS_PER_MATCH);
    assert_eq!(
        decode_canonical_snapshot(&simulation.snapshot().payload)
            .unwrap()
            .players
            .len(),
        MAX_PLAYERS_PER_MATCH
    );

    let overflow_player = u32::try_from(MAX_PLAYERS_PER_MATCH).unwrap() + 1;
    assert!(simulation.add_player(overflow_player).is_err());
}

#[test]
fn full_match_snapshot_contracts_stay_bounded_without_hiding_players() {
    let simulation = full_match(BattleMatchId::new(0x200));

    let canonical = simulation.snapshot();
    let addressed = simulation.snapshot_for(1).unwrap();
    let decoded = decode_snapshot(&addressed.payload).unwrap();

    assert_eq!(decoded.players.len(), MAX_PLAYERS_PER_MATCH);
    assert!(
        canonical.payload.len() <= CANONICAL_SNAPSHOT_BUDGET_BYTES,
        "canonical snapshot grew to {} bytes",
        canonical.payload.len()
    );
    assert!(
        addressed.payload.len() <= PLAYER_SNAPSHOT_BUDGET_BYTES,
        "player snapshot grew to {} bytes",
        addressed.payload.len()
    );
}

#[test]
fn full_capacity_workload_is_byte_deterministic_across_independent_simulations() {
    let match_id = BattleMatchId::new(0x300);
    let mut left = full_match(match_id);
    let mut right = full_match(match_id);

    for _ in 0..DETERMINISM_TICKS {
        advance(&mut left).unwrap();
        advance(&mut right).unwrap();
    }

    let left_snapshot = left.snapshot();
    let right_snapshot = right.snapshot();

    assert_eq!(left.current_tick(), DETERMINISM_TICKS as u64);
    assert_eq!(left_snapshot.payload, right_snapshot.payload);
    assert_eq!(left_snapshot.tick, right_snapshot.tick);

    let decoded = decode_canonical_snapshot(&left_snapshot.payload).unwrap();
    assert_eq!(decoded.players.len(), MAX_PLAYERS_PER_MATCH);
}
