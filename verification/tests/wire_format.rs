use battle_royale::match_types::{
    BattleMatchId, CanonicalMatchSnapshot, CanonicalPlayerSnapshot, EliminationCause,
    MatchCommand, MatchError, MatchPhase, StormSnapshot, LOBBY_COUNTDOWN_TICKS,
};
use battle_royale::protocol::{
    decode_canonical_snapshot, decode_command, decode_snapshot, encode_canonical_snapshot,
    encode_command, encode_snapshot,
};
use battle_royale::rules::BodyState;
use battle_royale::simulation::BattleRoyaleMatch;

fn physics_bodies(simulation: &BattleRoyaleMatch) -> Vec<BodyState> {
    let plan = simulation.movement_velocities();
    simulation
        .snapshot()
        .players
        .iter()
        .filter(|player| player.alive)
        .map(|player| {
            let velocity = plan
                .iter()
                .find(|(id, _)| *id == player.player_id)
                .map(|(_, velocity)| *velocity)
                .unwrap_or([0, 0, 0]);
            BodyState {
                player_id: player.player_id,
                position: [
                    player.position[0] + velocity[0],
                    player.position[1] + velocity[1],
                    player.position[2] + velocity[2],
                ],
                velocity,
            }
        })
        .collect()
}

fn advance(simulation: &mut BattleRoyaleMatch) -> Result<(), MatchError> {
    let bodies = physics_bodies(simulation);
    simulation.advance_tick(&bodies)
}

#[test]
fn command_roundtrip_is_exact_and_rejects_trailing_bytes() {
    let encoded = encode_command(MatchCommand::SetMovement { x: -1, z: 1 });
    assert_eq!(
        decode_command(&encoded).unwrap(),
        MatchCommand::SetMovement { x: -1, z: 1 }
    );

    let mut trailing = encoded.to_vec();
    trailing.push(0);
    assert_eq!(
        decode_command(&trailing).unwrap_err().message(),
        "invalid command length"
    );
}

#[test]
fn canonical_and_player_snapshots_roundtrip() {
    let mut simulation = BattleRoyaleMatch::new(BattleMatchId::new(31));
    simulation.add_player(1).unwrap();
    simulation.add_player(2).unwrap();
    simulation
        .apply_command(1, 4, MatchCommand::SetMovement { x: 1, z: 0 })
        .unwrap();
    for _ in 0..LOBBY_COUNTDOWN_TICKS {
        advance(&mut simulation).unwrap();
    }
    assert_eq!(simulation.phase(), MatchPhase::Drop);

    let canonical = simulation.snapshot();
    let visible = simulation.snapshot_for_player(1).unwrap();

    assert_eq!(
        decode_canonical_snapshot(&encode_canonical_snapshot(&canonical)).unwrap(),
        canonical
    );
    assert_eq!(decode_snapshot(&encode_snapshot(&visible)).unwrap(), visible);
}

#[test]
fn malformed_snapshot_fails_closed() {
    let mut simulation = BattleRoyaleMatch::new(BattleMatchId::new(32));
    simulation.add_player(1).unwrap();
    let mut encoded = encode_canonical_snapshot(&simulation.snapshot());
    encoded.push(9);
    assert_eq!(
        decode_canonical_snapshot(&encoded).unwrap_err().message(),
        "snapshot has trailing bytes"
    );
}

#[test]
fn command_bytes_and_command_errors() {
    assert_eq!(
        encode_command(MatchCommand::SetMovement { x: -1, z: 0 }),
        [1, 0, 1, 0xff, 0]
    );
    assert_eq!(
        decode_command(&[2, 0, 1, 0, 0]).unwrap_err().message(),
        "unsupported command protocol version"
    );
    assert_eq!(
        decode_command(&[1, 0, 2, 0, 0]).unwrap_err().message(),
        "unsupported command kind"
    );
    assert_eq!(
        decode_command(&[1, 0, 1, 2, 0]).unwrap_err().message(),
        "movement components must be between -1 and 1"
    );
    assert_eq!(
        decode_command(&[1, 0, 1]).unwrap_err().message(),
        "invalid command length"
    );
}

fn sample_snapshot() -> CanonicalMatchSnapshot {
    CanonicalMatchSnapshot {
        schema_version: 1,
        ruleset_revision: 1,
        match_id: BattleMatchId::new(0x0102_0304_0506_0708),
        tick: 300,
        phase: MatchPhase::Combat,
        phase_started_tick: 150,
        lobby_ready_tick: None,
        storm: StormSnapshot { center: [-17, 4_000], radius: 49_947, damage_active: true },
        winner: Some(7),
        players: vec![CanonicalPlayerSnapshot {
            player_id: 7,
            position: [-1, 2, -3],
            velocity: [18, 0, -18],
            movement_x: 1,
            movement_z: -1,
            last_sequence: 9,
            spawn_slot: 3,
            health: 98,
            alive: false,
            elimination_tick: Some(299),
            elimination_cause: Some(EliminationCause::Storm),
        }],
    }
}

#[test]
fn canonical_layout_is_little_endian_and_exact() {
    let bytes = encode_canonical_snapshot(&sample_snapshot());
    assert_eq!(&bytes[0..4], b"BRCA");
    assert_eq!(&bytes[4..6], &[1, 0]);
    assert_eq!(&bytes[16..24], &[8, 7, 6, 5, 4, 3, 2, 1]);
    assert_eq!(bytes[32], 2);
    assert_eq!(decode_canonical_snapshot(&bytes).unwrap(), sample_snapshot());
    // Every strict prefix is truncated.
    for end in 4..bytes.len() {
        assert!(decode_canonical_snapshot(&bytes[..end]).is_err());
    }
    assert_eq!(
        decode_canonical_snapshot(&bytes[..10]).unwrap_err().message(),
        "truncated snapshot"
    );
}

#[test]
fn each_snapshot_failure_has_its_message() {
    let good = encode_canonical_snapshot(&sample_snapshot());
    let mut magic = good.clone();
    magic[0] = b'X';
    assert_eq!(decode_canonical_snapshot(&magic).unwrap_err().message(), "invalid snapshot magic");
    let mut version = good.clone();
    version[4] = 2;
    assert_eq!(
        decode_canonical_snapshot(&version).unwrap_err().message(),
        "unsupported snapshot protocol version"
    );
    let mut phase = good.clone();
    phase[32] = 4;
    assert_eq!(decode_canonical_snapshot(&phase).unwrap_err().message(), "invalid match phase");
    let mut lobby = good.clone();
    lobby[41] = 2;
    assert_eq!(
        decode_canonical_snapshot(&lobby).unwrap_err().message(),
        "invalid optional u64 tag"
    );
    let mut damage = good.clone();
    damage[54] = 3;
    assert_eq!(decode_canonical_snapshot(&damage).unwrap_err().message(), "invalid boolean value");
    let mut winner = good.clone();
    winner[55] = 5;
    assert_eq!(
        decode_canonical_snapshot(&winner).unwrap_err().message(),
        "invalid optional u32 tag"
    );
    let mut count = good.clone();
    count[60] = 101;
    assert_eq!(
        decode_canonical_snapshot(&count).unwrap_err().message(),
        "snapshot player count exceeds match capacity"
    );
    let mut cause = good.clone();
    let last = cause.len() - 1;
    cause[last] = 3;
    assert_eq!(decode_canonical_snapshot(&cause).unwrap_err().message(), "invalid elimination cause");
    assert_eq!(
        decode_snapshot(&good).unwrap_err().message(),
        "invalid snapshot magic"
    );
}
