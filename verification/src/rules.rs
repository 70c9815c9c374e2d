//! The match rules as mathematical functions: spawn grid, movement intent, safe zone,
//! eliminations, lobby countdown and phase progression.
use vstd::prelude::*;
use crate::match_types::{
    fails_with, MatchCommand, MatchError, BattleMatchId, CanonicalPlayerSnapshot, EliminationCause, MatchPhase, PlayerId, PlayerSnapshot,
    StormSnapshot, DROP_DURATION_TICKS, INITIAL_STORM_RADIUS_UNITS, INTEREST_RADIUS_UNITS,
    LOBBY_COUNTDOWN_TICKS, MAX_HEALTH, MAX_PLAYERS_PER_MATCH, MIN_PLAYERS_TO_START,
    STORM_DAMAGE_PER_TICK, STORM_DELAY_TICKS, STORM_SHRINK_DURATION_TICKS,
};

verus! {

/// Abstract state of a match. `players` lists every admitted player in ascending id order.
pub struct MatchView {
    pub match_id: BattleMatchId,
    pub tick: u64,
    pub phase: MatchPhase,
    pub phase_started_tick: u64,
    pub lobby_ready_tick: Option<u64>,
    /// When combat began; the safe zone shrinks from then on.
    pub combat_started_tick: u64,
    pub players: Seq<CanonicalPlayerSnapshot>,
    pub winner: Option<PlayerId>,
}

/// Where the physics world left one player's body after a step.
#[derive(Clone, Copy, Debug, PartialEq, Eq)]
pub struct BodyState {
    pub player_id: PlayerId,
    pub position: [i32; 3],
    pub velocity: [i32; 3],
}

pub const SPAWN_GRID_WIDTH: u16 = 10;
pub const SPAWN_SPACING: i32 = 800;
pub const PLAYER_SPEED: i32 = 18;
pub const PLAYER_DIAGONAL_SPEED: i32 = 13;
pub const PLAYER_BODY_BASE: u64 = 1_000_000;

// ---------------------------------------------------------------------------------------------
// Well-formedness

/// A player holds a spawn slot of the grid and a movement intent of at most one step per axis.
pub open spec fn player_ok(p: CanonicalPlayerSnapshot) -> bool {
    &&& p.spawn_slot < 100
    &&& -1 <= p.movement_x <= 1
    &&& -1 <= p.movement_z <= 1
}

/// Phases started no later than now (combat began when the current combat phase did, and a
/// finished match after its combat began); players are
/// listed by strictly increasing id, there are at most
/// `MAX_PLAYERS_PER_MATCH` of them, each holds its own spawn slot, and each is `player_ok`.
pub open spec fn well_formed(v: MatchView) -> bool {
    &&& v.phase_started_tick <= v.tick
    &&& v.combat_started_tick <= v.tick
    &&& v.phase == MatchPhase::Finished ==> v.combat_started_tick <= v.phase_started_tick
    &&& v.phase == MatchPhase::Combat ==> v.combat_started_tick == v.phase_started_tick
    &&& v.players.len() <= MAX_PLAYERS_PER_MATCH
    &&& forall|i: int, j: int|
        0 <= i < j < v.players.len() ==> #[trigger] v.players[i].player_id
            < #[trigger] v.players[j].player_id
    &&& forall|i: int, j: int|
        0 <= i < v.players.len() && 0 <= j < v.players.len() && i != j
            ==> #[trigger] v.players[i].spawn_slot != #[trigger] v.players[j].spawn_slot
    &&& forall|i: int| 0 <= i < v.players.len() ==> #[trigger] player_ok(v.players[i])
}

/// Replacing each player by one with the same id and spawn slot that is still `player_ok`
/// keeps a match well formed.
pub proof fn lemma_well_formed_pointwise(v: MatchView, players: Seq<CanonicalPlayerSnapshot>)
    requires
        well_formed(v),
        players.len() == v.players.len(),
        forall|i: int|
            0 <= i < players.len() ==> (#[trigger] players[i]).player_id == v.players[i].player_id
                && players[i].spawn_slot == v.players[i].spawn_slot && player_ok(players[i]),
    ensures
        well_formed(MatchView { players, ..v }),
{
    assert forall|i: int, j: int|
        0 <= i < j < players.len() implies #[trigger] players[i].player_id
        < #[trigger] players[j].player_id by {
        assert(v.players[i].player_id < v.players[j].player_id);
    }
    assert forall|i: int, j: int|
        0 <= i < players.len() && 0 <= j < players.len() && i != j implies #[trigger] players[i].spawn_slot
        != #[trigger] players[j].spawn_slot by {
        assert(v.players[i].spawn_slot != v.players[j].spawn_slot);
    }
}

/// Whether some admitted player has this id.
pub open spec fn has_player(players: Seq<CanonicalPlayerSnapshot>, id: PlayerId) -> bool {
    exists|i: int| 0 <= i < players.len() && #[trigger] players[i].player_id == id
}

/// The position of the player with this id (meaningful when `has_player`).
pub open spec fn index_of(players: Seq<CanonicalPlayerSnapshot>, id: PlayerId) -> int {
    choose|i: int| 0 <= i < players.len() && #[trigger] players[i].player_id == id
}

/// Whether some admitted player holds this spawn slot.
pub open spec fn slot_used(players: Seq<CanonicalPlayerSnapshot>, slot: int) -> bool {
    exists|i: int| 0 <= i < players.len() && #[trigger] players[i].spawn_slot == slot
}

/// The lowest spawn slot in `from..100` that no player holds.
pub open spec fn first_free_slot_from(players: Seq<CanonicalPlayerSnapshot>, from: int) -> Option<u16>
    decreases 100 - from,
{
    if from >= 100 || from < 0 {
        None
    } else if !slot_used(players, from) {
        Some(from as u16)
    } else {
        first_free_slot_from(players, from + 1)
    }
}

/// The lowest spawn slot below `MAX_PLAYERS_PER_MATCH` that no player holds.
pub open spec fn free_slot(players: Seq<CanonicalPlayerSnapshot>) -> Option<u16> {
    first_free_slot_from(players, 0)
}

/// A slot found free is free, and lies in the searched range.
pub proof fn lemma_first_free_slot(players: Seq<CanonicalPlayerSnapshot>, from: int)
    requires
        0 <= from <= 100,
    ensures
        first_free_slot_from(players, from) matches Some(t) ==> from <= t < 100 && !slot_used(
            players,
            t as int,
        ),
        first_free_slot_from(players, from) is None ==> forall|t: int|
            from <= t < 100 ==> slot_used(players, t),
    decreases 100 - from,
{
    if 0 <= from < 100 && slot_used(players, from) {
        lemma_first_free_slot(players, from + 1);
        assert forall|t: int| from <= t < 100 && first_free_slot_from(players, from) is None implies slot_used(players, t) by {
            if t > from {
            }
        }
    }
}

// ---------------------------------------------------------------------------------------------
// Spawning and movement

/// Spawn slots form a 10-wide grid with 800 units between neighbours, centred on the origin.
pub open spec fn spawn_position(slot: u16) -> [i32; 3] {
    let row = slot / SPAWN_GRID_WIDTH;
    let column = slot % SPAWN_GRID_WIDTH;
    [(column * SPAWN_SPACING - 3600) as i32, 0, (row * SPAWN_SPACING - 3600) as i32]
}

/// A freshly admitted player.
pub open spec fn new_player(id: PlayerId, slot: u16) -> CanonicalPlayerSnapshot {
    CanonicalPlayerSnapshot {
        player_id: id,
        position: spawn_position(slot),
        velocity: [0, 0, 0],
        movement_x: 0,
        movement_z: 0,
        last_sequence: 0,
        spawn_slot: slot,
        health: MAX_HEALTH,
        alive: true,
        elimination_tick: None,
        elimination_cause: None,
    }
}

/// The velocity a player's movement intent asks of the physics world: 18 units per tick along
/// one axis, 13 per axis on a diagonal.
pub open spec fn movement_velocity(p: CanonicalPlayerSnapshot) -> [i32; 3] {
    let speed: int = if p.movement_x != 0 && p.movement_z != 0 {
        PLAYER_DIAGONAL_SPEED as int
    } else {
        PLAYER_SPEED as int
    };
    [(p.movement_x * speed) as i32, 0, (p.movement_z * speed) as i32]
}

/// Velocities to hand to the physics world, one per alive player, in id order.
pub open spec fn movement_plan(players: Seq<CanonicalPlayerSnapshot>) -> Seq<(PlayerId, [i32; 3])>
    decreases players.len(),
{
    if players.len() == 0 {
        Seq::empty()
    } else {
        let rest = movement_plan(players.drop_last());
        let p = players.last();
        if p.alive {
            rest.push((p.player_id, movement_velocity(p)))
        } else {
            rest
        }
    }
}

/// The first body reported for this player, if any.
pub open spec fn body_for(bodies: Seq<BodyState>, id: PlayerId) -> Option<BodyState>
    decreases bodies.len(),
{
    if bodies.len() == 0 {
        None
    } else if bodies[0].player_id == id {
        Some(bodies[0])
    } else {
        body_for(bodies.drop_first(), id)
    }
}

/// Every alive player has a reported body.
pub open spec fn bodies_cover(players: Seq<CanonicalPlayerSnapshot>, bodies: Seq<BodyState>) -> bool {
    forall|i: int|
        0 <= i < players.len() && #[trigger] players[i].alive ==> body_for(
            bodies,
            players[i].player_id,
        ) is Some
}

/// An alive player takes position and velocity from its body; others are left alone.
pub open spec fn moved_player(p: CanonicalPlayerSnapshot, bodies: Seq<BodyState>) -> CanonicalPlayerSnapshot {
    if p.alive {
        match body_for(bodies, p.player_id) {
            Some(b) => CanonicalPlayerSnapshot { position: b.position, velocity: b.velocity, ..p },
            None => p,
        }
    } else {
        p
    }
}

// ---------------------------------------------------------------------------------------------
// Safe zone

/// A bit mixer over the match id (SplitMix64 finaliser).
pub open spec fn mix(value: u64) -> u64 {
    let a = value ^ (value >> 30u64);
    let b = a.wrapping_mul(0xbf58_476d_1ce4_e5b9u64);
    let c = b ^ (b >> 27u64);
    let d = c.wrapping_mul(0x94d0_49bb_1331_11ebu64);
    d ^ (d >> 31u64)
}

/// One center coordinate, in `-5000..=5000`.
pub open spec fn axis(value: u64) -> i32 {
    ((value % 10_001) - 5_000) as i32
}

/// The safe-zone center, a function of the match id alone.
pub open spec fn storm_center(match_id: BattleMatchId) -> [i32; 2] {
    [
        axis(mix(match_id.value() ^ 0x9e37_79b9_7f4a_7c15u64)),
        axis(mix(match_id.value() ^ 0xc2b2_ae3d_27d4_eb4fu64)),
    ]
}

/// Ticks since the phase began, never negative.
pub open spec fn elapsed(tick: u64, since: u64) -> int {
    if tick >= since {
        tick - since
    } else {
        0
    }
}

/// Safe-zone radius after `elapsed` combat ticks: the initial radius during the delay, then a
/// linear integer shrink to the final radius over the shrink duration, then the final radius.
pub open spec fn storm_radius(elapsed: int) -> int {
    if elapsed <= STORM_DELAY_TICKS {
        INITIAL_STORM_RADIUS_UNITS as int
    } else {
        let shrink_elapsed = if elapsed - STORM_DELAY_TICKS <= STORM_SHRINK_DURATION_TICKS {
            elapsed - STORM_DELAY_TICKS
        } else {
            STORM_SHRINK_DURATION_TICKS as int
        };
        INITIAL_STORM_RADIUS_UNITS - (48_000 * shrink_elapsed) / 900
    }
}

/// Combat ticks the safe zone has shrunk for: none before combat, those since combat began
/// during combat, and those up to the end of the match once it is finished.
pub open spec fn storm_elapsed(v: MatchView) -> int {
    match v.phase {
        MatchPhase::Combat => elapsed(v.tick, v.combat_started_tick),
        MatchPhase::Finished => elapsed(v.phase_started_tick, v.combat_started_tick),
        _ => 0,
    }
}

/// The safe zone of a match state. It is fixed before combat, shrinks during combat and stays
/// as it was when the match finished.
pub open spec fn storm_of(v: MatchView) -> StormSnapshot {
    if v.phase != MatchPhase::Combat && v.phase != MatchPhase::Finished {
        StormSnapshot {
            center: storm_center(v.match_id),
            radius: INITIAL_STORM_RADIUS_UNITS,
            damage_active: false,
        }
    } else {
        let e = storm_elapsed(v);
        StormSnapshot {
            center: storm_center(v.match_id),
            radius: storm_radius(e) as i32,
            damage_active: e > STORM_DELAY_TICKS,
        }
    }
}

/// Strictly outside the circle of the given radius around `[cx, cz]`, on the x/z plane.
pub open spec fn outside_circle(position: [i32; 3], cx: int, cz: int, radius: int) -> bool {
    (position[0] - cx) * (position[0] - cx) + (position[2] - cz) * (position[2] - cz) > radius
        * radius
}

// ---------------------------------------------------------------------------------------------
// Eliminations and phases

/// A player taken out of the match at `tick`: no health, no movement, no velocity. An already
/// eliminated player is left as it is.
pub open spec fn eliminated(
    p: CanonicalPlayerSnapshot,
    tick: u64,
    cause: EliminationCause,
) -> CanonicalPlayerSnapshot {
    if !p.alive {
        p
    } else {
        CanonicalPlayerSnapshot {
            alive: false,
            health: 0,
            movement_x: 0,
            movement_z: 0,
            velocity: [0, 0, 0],
            elimination_tick: Some(tick),
            elimination_cause: Some(cause),
            ..p
        }
    }
}

/// An alive player outside an active safe zone loses `STORM_DAMAGE_PER_TICK` health (not
/// below zero) and is eliminated by the storm when none is left.
pub open spec fn storm_damaged(p: CanonicalPlayerSnapshot, storm: StormSnapshot, tick: u64) -> CanonicalPlayerSnapshot {
    if p.alive && storm.damage_active && outside_circle(
        p.position,
        storm.center[0] as int,
        storm.center[1] as int,
        storm.radius as int,
    ) {
        let health: u16 = if p.health >= STORM_DAMAGE_PER_TICK {
            (p.health - STORM_DAMAGE_PER_TICK) as u16
        } else {
            0
        };
        if health == 0 {
            eliminated(p, tick, EliminationCause::Storm)
        } else {
            CanonicalPlayerSnapshot { health, ..p }
        }
    } else {
        p
    }
}

/// Ids of the alive players, in id order.
pub open spec fn alive_ids(players: Seq<CanonicalPlayerSnapshot>) -> Seq<PlayerId>
    decreases players.len(),
{
    if players.len() == 0 {
        Seq::empty()
    } else {
        let rest = alive_ids(players.drop_last());
        if players.last().alive {
            rest.push(players.last().player_id)
        } else {
            rest
        }
    }
}

/// Enter `phase` at the current tick; the lobby countdown ends with the lobby.
pub open spec fn start_phase(v: MatchView, phase: MatchPhase) -> MatchView {
    MatchView {
        phase,
        phase_started_tick: v.tick,
        lobby_ready_tick: if phase != MatchPhase::Waiting {
            None
        } else {
            v.lobby_ready_tick
        },
        combat_started_tick: if phase == MatchPhase::Combat {
            v.tick
        } else {
            v.combat_started_tick
        },
        ..v
    }
}

/// In combat, a match with one alive player is won by that player and one with none ends
/// without a winner.
pub open spec fn finish_if_decided(v: MatchView) -> MatchView {
    if v.phase != MatchPhase::Combat {
        v
    } else {
        let alive = alive_ids(v.players);
        if alive.len() == 1 {
            start_phase(MatchView { winner: Some(alive[0]), ..v }, MatchPhase::Finished)
        } else if alive.len() == 0 {
            start_phase(MatchView { winner: None, ..v }, MatchPhase::Finished)
        } else {
            v
        }
    }
}

/// While waiting, the countdown starts when the lobby first holds enough players and is reset
/// when it no longer does.
pub open spec fn refresh_lobby(v: MatchView) -> MatchView {
    if v.phase != MatchPhase::Waiting {
        v
    } else if v.players.len() >= MIN_PLAYERS_TO_START {
        if v.lobby_ready_tick is None {
            MatchView { lobby_ready_tick: Some(v.tick), ..v }
        } else {
            v
        }
    } else {
        MatchView { lobby_ready_tick: None, ..v }
    }
}

/// The lobby countdown has run for `LOBBY_COUNTDOWN_TICKS`.
pub open spec fn countdown_complete(v: MatchView) -> bool {
    match v.lobby_ready_tick {
        Some(ready) => elapsed(v.tick, ready) >= LOBBY_COUNTDOWN_TICKS,
        None => false,
    }
}

/// Storm damage applied to every player.
pub open spec fn storm_applied(v: MatchView) -> MatchView {
    let storm = storm_of(v);
    MatchView { players: v.players.map_values(|p| storm_damaged(p, storm, v.tick)), ..v }
}

/// Phase rules run once the tick counter has moved on.
pub open spec fn phase_step(v: MatchView) -> MatchView {
    match v.phase {
        MatchPhase::Waiting => {
            let r = refresh_lobby(v);
            if r.players.len() == MAX_PLAYERS_PER_MATCH || countdown_complete(r) {
                start_phase(r, MatchPhase::Drop)
            } else {
                r
            }
        },
        MatchPhase::Drop => {
            if elapsed(v.tick, v.phase_started_tick) >= DROP_DURATION_TICKS {
                finish_if_decided(start_phase(v, MatchPhase::Combat))
            } else {
                v
            }
        },
        MatchPhase::Combat => finish_if_decided(storm_applied(v)),
        MatchPhase::Finished => v,
    }
}

/// Positions from the physics step, except once the match is finished.
pub open spec fn movement_applied(v: MatchView, bodies: Seq<BodyState>) -> MatchView {
    if v.phase == MatchPhase::Finished {
        v
    } else {
        MatchView { players: v.players.map_values(|p| moved_player(p, bodies)), ..v }
    }
}

/// One authoritative tick: movement, the tick counter, then the phase rules.
pub open spec fn advanced(v: MatchView, bodies: Seq<BodyState>) -> MatchView {
    phase_step(MatchView { tick: (v.tick + 1) as u64, ..movement_applied(v, bodies) })
}

/// Within the interest radius of the viewer on the x/z plane.
pub open spec fn within_interest(viewer: CanonicalPlayerSnapshot, p: CanonicalPlayerSnapshot) -> bool {
    !outside_circle(
        p.position,
        viewer.position[0] as int,
        viewer.position[2] as int,
        INTEREST_RADIUS_UNITS as int,
    )
}

/// The public part of a player's state.
pub open spec fn projected(p: CanonicalPlayerSnapshot) -> PlayerSnapshot {
    PlayerSnapshot {
        player_id: p.player_id,
        position: p.position,
        velocity: p.velocity,
        health: p.health,
        alive: p.alive,
        elimination_tick: p.elimination_tick,
        elimination_cause: p.elimination_cause,
    }
}

/// What the viewer may see: itself and every player within the interest radius, in id order.
pub open spec fn visible_players(players: Seq<CanonicalPlayerSnapshot>, viewer: CanonicalPlayerSnapshot) -> Seq<PlayerSnapshot>
    decreases players.len(),
{
    if players.len() == 0 {
        Seq::empty()
    } else {
        let rest = visible_players(players.drop_last(), viewer);
        let p = players.last();
        if p.player_id == viewer.player_id || within_interest(viewer, p) {
            rest.push(projected(p))
        } else {
            rest
        }
    }
}

/// Every player before `k` has a smaller id than `id`, every player from `k` on a larger one.
pub open spec fn splits_at(players: Seq<CanonicalPlayerSnapshot>, id: PlayerId, k: int) -> bool {
    &&& 0 <= k <= players.len()
    &&& forall|i: int| 0 <= i < k ==> #[trigger] players[i].player_id < id
    &&& forall|i: int| k <= i < players.len() ==> #[trigger] players[i].player_id > id
}

/// Where a new player goes among players listed by increasing id.
pub open spec fn insertion_point(players: Seq<CanonicalPlayerSnapshot>, id: PlayerId) -> int {
    choose|k: int| #[trigger] splits_at(players, id, k)
}

/// The player list after admitting `p`, kept in id order.
pub open spec fn admitted(players: Seq<CanonicalPlayerSnapshot>, p: CanonicalPlayerSnapshot) -> Seq<CanonicalPlayerSnapshot> {
    players.insert(insertion_point(players, p.player_id), p)
}

/// A player's movement intent and acknowledged sequence after an accepted command.
pub open spec fn commanded(p: CanonicalPlayerSnapshot, sequence: u32, x: i8, z: i8) -> CanonicalPlayerSnapshot {
    CanonicalPlayerSnapshot { movement_x: x, movement_z: z, last_sequence: sequence, ..p }
}

/// The match after a player's session was retired once the match had started: an alive player
/// is eliminated as `SessionExpired` and the match may be decided.
pub open spec fn retired(v: MatchView, id: PlayerId) -> MatchView {
    let i = index_of(v.players, id);
    if v.players[i].alive {
        finish_if_decided(
            MatchView {
                players: v.players.update(i, eliminated(v.players[i], v.tick, EliminationCause::SessionExpired)),
                ..v
            },
        )
    } else {
        v
    }
}

/// A new match: waiting at tick 0 with nobody admitted.
pub open spec fn fresh_match(match_id: BattleMatchId) -> MatchView {
    MatchView {
        match_id,
        tick: 0,
        phase: MatchPhase::Waiting,
        phase_started_tick: 0,
        lobby_ready_tick: None,
        combat_started_tick: 0,
        players: Seq::empty(),
        winner: None,
    }
}

/// What admitting a player does: refused unless the lobby is open, the id is new, there is
/// room and a free spawn slot; otherwise the player joins at its slot and the lobby countdown
/// is refreshed.
pub open spec fn admission(v: MatchView, id: PlayerId) -> Result<MatchView, Seq<char>> {
    if v.phase != MatchPhase::Waiting {
        Err("match admission is closed"@)
    } else if has_player(v.players, id) {
        Err("player already exists in match"@)
    } else if v.players.len() >= MAX_PLAYERS_PER_MATCH {
        Err("match player capacity reached"@)
    } else {
        match free_slot(v.players) {
            None => Err("match spawn capacity reached"@),
            Some(slot) => Ok(
                refresh_lobby(MatchView { players: admitted(v.players, new_player(id, slot)), ..v }),
            ),
        }
    }
}

/// What retiring a known player's session does: before the match starts the player leaves the
/// lobby; afterwards an alive player is eliminated as `SessionExpired`.
pub open spec fn removal(v: MatchView, id: PlayerId) -> MatchView {
    if !has_player(v.players, id) {
        v
    } else if v.phase == MatchPhase::Waiting {
        refresh_lobby(MatchView { players: v.players.remove(index_of(v.players, id)), ..v })
    } else {
        retired(v, id)
    }
}

/// What a movement command does: refused once the match is finished, for unknown or
/// eliminated players, for a sequence that does not exceed the last accepted one, and for
/// components outside `-1..=1`; otherwise it sets the player's movement intent and sequence.
pub open spec fn command_outcome(v: MatchView, id: PlayerId, sequence: u32, command: MatchCommand) -> Result<MatchView, Seq<char>> {
    let MatchCommand::SetMovement { x, z } = command;
    if v.phase == MatchPhase::Finished {
        Err("match is finished"@)
    } else if !has_player(v.players, id) {
        Err("unknown player"@)
    } else {
        let i = index_of(v.players, id);
        let p = v.players[i];
        if !p.alive {
            Err("player is eliminated"@)
        } else if sequence == 0 || sequence <= p.last_sequence {
            Err("command sequence is stale"@)
        } else if !(-1 <= x <= 1 && -1 <= z <= 1) {
            Err("movement components must be between -1 and 1"@)
        } else {
            Ok(MatchView { players: v.players.update(i, commanded(p, sequence, x, z)), ..v })
        }
    }
}

/// What a tick does: refused when the tick counter is exhausted, or when an alive player of an
/// unfinished match has no physics body; otherwise `advanced`.
pub open spec fn tick_outcome(v: MatchView, bodies: Seq<BodyState>) -> Result<MatchView, Seq<char>> {
    if v.tick == u64::MAX {
        Err("match tick overflow"@)
    } else if v.phase != MatchPhase::Finished && !bodies_cover(v.players, bodies) {
        Err("player physics body is missing"@)
    } else {
        Ok(advanced(v, bodies))
    }
}

/// The operation ended as `outcome` says: it succeeded with that new state, or failed with that
/// message and left the state as it was.
pub open spec fn follows(r: Result<(), MatchError>, before: MatchView, after: MatchView, outcome: Result<MatchView, Seq<char>>) -> bool {
    match outcome {
        Ok(v) => r is Ok && after == v,
        Err(text) => fails_with(r, text) && after == before,
    }
}

} // verus!
