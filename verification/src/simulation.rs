//! The authoritative match: admission, commands, ticks and snapshots.
//!
//! The physics world is not held here. Each tick, the host hands the world the velocities of
//! `movement_velocities`, steps it, and passes the resulting bodies to `advance_tick`.
use vstd::prelude::*;
use crate::match_types::{
    BattleMatchId, CanonicalMatchSnapshot, CanonicalPlayerSnapshot, EliminationCause,
    fails_with, MatchCommand, MatchError, MatchPhase, MatchSnapshot, PlayerId, PlayerSnapshot, StormSnapshot,
    DROP_DURATION_TICKS, INITIAL_STORM_RADIUS_UNITS, INTEREST_RADIUS_UNITS,
    LOBBY_COUNTDOWN_TICKS, MAX_HEALTH, MAX_PLAYERS_PER_MATCH, MIN_PLAYERS_TO_START,
    RULESET_REVISION, SNAPSHOT_SCHEMA_VERSION, STORM_DAMAGE_PER_TICK, STORM_DELAY_TICKS,
    STORM_SHRINK_DURATION_TICKS,
};
use crate::rules::{
    advanced, alive_ids, axis, body_for, bodies_cover, countdown_complete, eliminated, elapsed,
    finish_if_decided, free_slot, has_player, index_of, mix, movement_applied, movement_plan, 
    movement_velocity, moved_player, new_player, outside_circle, phase_step, projected,
    refresh_lobby, slot_used, spawn_position, start_phase, storm_applied, storm_center,
    storm_damaged, storm_of, storm_radius, first_free_slot_from, lemma_first_free_slot, visible_players, well_formed, within_interest,
    lemma_well_formed_pointwise, player_ok, BodyState, MatchView, admission, admitted, fresh_match, command_outcome, commanded, follows, insertion_point, removal, retired, splits_at, tick_outcome, PLAYER_BODY_BASE, PLAYER_DIAGONAL_SPEED, PLAYER_SPEED,
};

verus! {

/// `s` is the canonical snapshot of the match state `v`.
pub open spec fn is_canonical_snapshot_of(s: CanonicalMatchSnapshot, v: MatchView) -> bool {
    &&& s.schema_version == SNAPSHOT_SCHEMA_VERSION
    &&& s.ruleset_revision == RULESET_REVISION
    &&& s.match_id == v.match_id
    &&& s.tick == v.tick
    &&& s.phase == v.phase
    &&& s.phase_started_tick == v.phase_started_tick
    &&& s.lobby_ready_tick == v.lobby_ready_tick
    &&& s.storm == storm_of(v)
    &&& s.winner == v.winner
    &&& s.players@ == v.players
}

/// `s` is what `viewer` may see of the match state `v`.
pub open spec fn is_player_snapshot_of(s: MatchSnapshot, v: MatchView, viewer: CanonicalPlayerSnapshot) -> bool {
    &&& s.schema_version == SNAPSHOT_SCHEMA_VERSION
    &&& s.ruleset_revision == RULESET_REVISION
    &&& s.match_id == v.match_id
    &&& s.tick == v.tick
    &&& s.phase == v.phase
    &&& s.phase_started_tick == v.phase_started_tick
    &&& s.lobby_ready_tick == v.lobby_ready_tick
    &&& s.storm == storm_of(v)
    &&& s.winner == v.winner
    &&& s.acknowledged_sequence == viewer.last_sequence
    &&& s.players@ == visible_players(v.players, viewer)
}

/// A single, authoritative battle royale match.
pub struct BattleRoyaleMatch {
    match_id: BattleMatchId,
    tick: u64,
    phase: MatchPhase,
    phase_started_tick: u64,
    lobby_ready_tick: Option<u64>,
    combat_started_tick: u64,
    players: Vec<CanonicalPlayerSnapshot>,
    winner: Option<PlayerId>,
}

impl View for BattleRoyaleMatch {
    type V = MatchView;

    closed spec fn view(&self) -> MatchView {
        MatchView {
            match_id: self.match_id,
            tick: self.tick,
            phase: self.phase,
            phase_started_tick: self.phase_started_tick,
            lobby_ready_tick: self.lobby_ready_tick,
            combat_started_tick: self.combat_started_tick,
            players: self.players@,
            winner: self.winner,
        }
    }
}

/// In a list ordered by strictly increasing id, an id found at `i` is found only there.
pub proof fn lemma_index_of_unique(players: Seq<CanonicalPlayerSnapshot>, i: int)
    requires
        forall|a: int, b: int|
            0 <= a < b < players.len() ==> #[trigger] players[a].player_id
                < #[trigger] players[b].player_id,
        0 <= i < players.len(),
    ensures
        has_player(players, players[i].player_id),
        index_of(players, players[i].player_id) == i,
{
    let id = players[i].player_id;
    assert(players[i].player_id == id);
    let j = index_of(players, id);
    assert(0 <= j < players.len() && players[j].player_id == id);
    if j < i {
        assert(players[j].player_id < players[i].player_id);
    } else if i < j {
        assert(players[i].player_id < players[j].player_id);
    }
}

/// `alive_ids` of a longer prefix extends that of the shorter one.
proof fn lemma_alive_ids_step(players: Seq<CanonicalPlayerSnapshot>, i: int)
    requires
        0 <= i < players.len(),
    ensures
        alive_ids(players.take(i + 1)) == (if players[i].alive {
            alive_ids(players.take(i)).push(players[i].player_id)
        } else {
            alive_ids(players.take(i))
        }),
{
    assert(players.take(i + 1).drop_last() =~= players.take(i));
}

proof fn lemma_movement_plan_step(players: Seq<CanonicalPlayerSnapshot>, i: int)
    requires
        0 <= i < players.len(),
    ensures
        movement_plan(players.take(i + 1)) == (if players[i].alive {
            movement_plan(players.take(i)).push((players[i].player_id, movement_velocity(players[i])))
        } else {
            movement_plan(players.take(i))
        }),
{
    assert(players.take(i + 1).drop_last() =~= players.take(i));
}

proof fn lemma_visible_step(players: Seq<CanonicalPlayerSnapshot>, viewer: CanonicalPlayerSnapshot, i: int)
    requires
        0 <= i < players.len(),
    ensures
        visible_players(players.take(i + 1), viewer) == (if players[i].player_id == viewer.player_id
            || within_interest(viewer, players[i]) {
            visible_players(players.take(i), viewer).push(projected(players[i]))
        } else {
            visible_players(players.take(i), viewer)
        }),
{
    assert(players.take(i + 1).drop_last() =~= players.take(i));
}

/// The squared planar distance test, computed without overflow.
fn outside(position: [i32; 3], cx: i32, cz: i32, radius: i32) -> (r: bool)
    ensures
        r == outside_circle(position, cx as int, cz as int, radius as int),
{
    let dx: i128 = position[0] as i128 - cx as i128;
    let dz: i128 = position[2] as i128 - cz as i128;
    let rr: i128 = radius as i128;
    assert(dx * dx <= 0x1_0000_0000i128 * 0x1_0000_0000i128) by (nonlinear_arith)
        requires
            -0x1_0000_0000i128 <= dx <= 0x1_0000_0000i128,
    ;
    assert(dz * dz <= 0x1_0000_0000i128 * 0x1_0000_0000i128) by (nonlinear_arith)
        requires
            -0x1_0000_0000i128 <= dz <= 0x1_0000_0000i128,
    ;
    assert(rr * rr <= 0x1_0000_0000i128 * 0x1_0000_0000i128) by (nonlinear_arith)
        requires
            -0x1_0000_0000i128 <= rr <= 0x1_0000_0000i128,
    ;
    assert(0 <= dx * dx) by (nonlinear_arith);
    assert(0 <= rr * rr) by (nonlinear_arith);
    assert(0 <= dz * dz) by (nonlinear_arith);
    (dx * dx) + (dz * dz) > rr * rr
}

fn mix_exec(value: u64) -> (r: u64)
    ensures
        r == mix(value),
{
    let a = value ^ (value >> 30u64);
    let b = a.wrapping_mul(0xbf58_476d_1ce4_e5b9u64);
    let c = b ^ (b >> 27u64);
    let d = c.wrapping_mul(0x94d0_49bb_1331_11ebu64);
    d ^ (d >> 31u64)
}

fn axis_exec(value: u64) -> (r: i32)
    ensures
        r == axis(value),
{
    let m: u64 = value % 10_001;
    (m as i32) - 5_000
}

/// The safe-zone center derived from the match id.
pub fn storm_center_of(match_id: BattleMatchId) -> (center: [i32; 2])
    ensures
        center == storm_center(match_id),
{
    let first = mix_exec(match_id.get() ^ 0x9e37_79b9_7f4a_7c15u64);
    let second = mix_exec(match_id.get() ^ 0xc2b2_ae3d_27d4_eb4fu64);
    [axis_exec(first), axis_exec(second)]
}

/// The spawn position of a slot of the 10-wide spawn grid.
pub fn spawn_position_of(slot: u16) -> (position: [i32; 3])
    ensures
        position == spawn_position(slot),
{
    let row: u16 = slot / 10;
    let column: u16 = slot % 10;
    [(column as i32) * 800 - 3600, 0, (row as i32) * 800 - 3600]
}

/// The velocity a player's movement intent asks of the physics world.
pub fn movement_velocity_of(p: &CanonicalPlayerSnapshot) -> (velocity: [i32; 3])
    requires
        -1 <= p.movement_x <= 1,
        -1 <= p.movement_z <= 1,
    ensures
        velocity == movement_velocity(*p),
{
    let speed: i32 = if p.movement_x != 0 && p.movement_z != 0 {
        PLAYER_DIAGONAL_SPEED
    } else {
        PLAYER_SPEED
    };
    [(p.movement_x as i32) * speed, 0, (p.movement_z as i32) * speed]
}

/// The physics body key of a player.
pub fn body_id(player_id: PlayerId) -> (key: u64)
    ensures
        key == PLAYER_BODY_BASE + player_id,
{
    PLAYER_BODY_BASE + player_id as u64
}

/// The first body reported for a player.
fn find_body(bodies: &[BodyState], id: PlayerId) -> (r: Option<BodyState>)
    ensures
        r == body_for(bodies@, id),
{
    let mut i: usize = 0;
    assert(bodies@.subrange(0, bodies@.len() as int) =~= bodies@);
    while i < bodies.len()
        invariant
            i <= bodies@.len(),
            body_for(bodies@, id) == body_for(bodies@.subrange(i as int, bodies@.len() as int), id),
        decreases bodies.len() - i,
    {
        let ghost rest = bodies@.subrange(i as int, bodies@.len() as int);
        assert(rest[0] == bodies@[i as int]);
        if bodies[i].player_id == id {
            return Some(bodies[i]);
        }
        assert(rest.drop_first() =~= bodies@.subrange(i + 1, bodies@.len() as int));
        i = i + 1;
    }
    assert(bodies@.subrange(i as int, bodies@.len() as int).len() == 0);
    None
}

/// Every player after the physics step, or `None` when an alive player has no body.
fn moved_players(players: &Vec<CanonicalPlayerSnapshot>, bodies: &[BodyState]) -> (r: Option<Vec<CanonicalPlayerSnapshot>>)
    ensures
        r is Some <==> bodies_cover(players@, bodies@),
        r matches Some(moved) ==> moved@ == players@.map_values(|p| moved_player(p, bodies@)),
{
    let mut moved: Vec<CanonicalPlayerSnapshot> = Vec::new();
    let mut i: usize = 0;
    while i < players.len()
        invariant
            i <= players@.len(),
            moved@.len() == i,
            forall|j: int| 0 <= j < i ==> #[trigger] moved@[j] == moved_player(players@[j], bodies@),
            forall|j: int|
                0 <= j < i && #[trigger] players@[j].alive ==> body_for(bodies@, players@[j].player_id) is Some,
        decreases players.len() - i,
    {
        let p = players[i];
        if p.alive {
            match find_body(bodies, p.player_id) {
                Some(b) => {
                    moved.push(CanonicalPlayerSnapshot { position: b.position, velocity: b.velocity, ..p });
                },
                None => {
                    assert(players@[i as int].alive);
                    return None;
                },
            }
        } else {
            moved.push(p);
        }
        i = i + 1;
    }
    assert(moved@ =~= players@.map_values(|p| moved_player(p, bodies@)));
    Some(moved)
}

impl BattleRoyaleMatch {
    /// The invariant every match keeps.
    pub open spec fn wf(&self) -> bool {
        well_formed(self@)
    }

    /// A new match, waiting for players.
    pub fn new(match_id: BattleMatchId) -> (m: Self)
        ensures
            m.wf(),
            m@ == fresh_match(match_id),
    {
        BattleRoyaleMatch {
            match_id,
            tick: 0,
            phase: MatchPhase::Waiting,
            phase_started_tick: 0,
            lobby_ready_tick: None,
            combat_started_tick: 0,
            players: Vec::new(),
            winner: None,
        }
    }

    pub fn match_id(&self) -> (id: BattleMatchId)
        ensures
            id == self@.match_id,
    {
        self.match_id
    }

    pub fn current_tick(&self) -> (tick: u64)
        ensures
            tick == self@.tick,
    {
        self.tick
    }

    pub fn phase(&self) -> (phase: MatchPhase)
        ensures
            phase == self@.phase,
    {
        self.phase
    }

    pub fn player_count(&self) -> (count: usize)
        ensures
            count == self@.players.len(),
    {
        self.players.len()
    }

    pub fn winner(&self) -> (winner: Option<PlayerId>)
        ensures
            winner == self@.winner,
    {
        self.winner
    }

    /// Ids of the alive players, in id order.
    fn alive_player_ids(&self) -> (ids: Vec<PlayerId>)
        ensures
            ids@ == alive_ids(self@.players),
    {
        let mut ids: Vec<PlayerId> = Vec::new();
        let mut i: usize = 0;
        while i < self.players.len()
            invariant
                i <= self.players@.len(),
                ids@ == alive_ids(self.players@.take(i as int)),
            decreases self.players.len() - i,
        {
            proof {
                lemma_alive_ids_step(self.players@, i as int);
            }
            if self.players[i].alive {
                ids.push(self.players[i].player_id);
            }
            i = i + 1;
        }
        assert(self.players@.take(i as int) =~= self.players@);
        ids
    }

    pub fn alive_count(&self) -> (count: usize)
        ensures
            count == alive_ids(self@.players).len(),
    {
        self.alive_player_ids().len()
    }

    /// The index of a player, if admitted.
    fn find_player(&self, id: PlayerId) -> (r: Option<usize>)
        requires
            self.wf(),
        ensures
            r is None <==> !has_player(self@.players, id),
            r matches Some(i) ==> i < self@.players.len() && self@.players[i as int].player_id == id
                && i == index_of(self@.players, id),
    {
        let mut i: usize = 0;
        while i < self.players.len()
            invariant
                self.wf(),
                i <= self.players@.len(),
                forall|j: int| 0 <= j < i ==> #[trigger] self.players@[j].player_id != id,
            decreases self.players.len() - i,
        {
            if self.players[i].player_id == id {
                proof {
                    lemma_index_of_unique(self.players@, i as int);
                }
                return Some(i);
            }
            i = i + 1;
        }
        None
    }

    /// The lowest free spawn slot.
    fn available_spawn_slot(&self) -> (r: Option<u16>)
        ensures
            r == free_slot(self@.players),
    {
        let mut slot: u16 = 0;
        while slot < 100
            invariant
                slot <= 100,
                free_slot(self.players@) == first_free_slot_from(self.players@, slot as int),
            decreases 100 - slot,
        {
            let mut used = false;
            let mut i: usize = 0;
            while i < self.players.len()
                invariant
                    i <= self.players@.len(),
                    used <==> exists|j: int| 0 <= j < i && #[trigger] self.players@[j].spawn_slot == slot,
                decreases self.players.len() - i,
            {
                if self.players[i].spawn_slot == slot {
                    used = true;
                }
                i = i + 1;
            }
            if !used {
                return Some(slot);
            }
            slot = slot + 1;
        }
        None
    }

    /// Restart or clear the lobby countdown as the lobby fills or empties.
    fn refresh_lobby_ready_tick(&mut self)
        ensures
            final(self)@ == refresh_lobby(old(self)@),
    {
        if self.phase != MatchPhase::Waiting {
            return;
        }
        if self.players.len() >= MIN_PLAYERS_TO_START {
            if self.lobby_ready_tick.is_none() {
                self.lobby_ready_tick = Some(self.tick);
            }
        } else {
            self.lobby_ready_tick = None;
        }
    }

    fn start_phase(&mut self, phase: MatchPhase)
        ensures
            final(self)@ == start_phase(old(self)@, phase),
    {
        self.phase = phase;
        self.phase_started_tick = self.tick;
        if phase != MatchPhase::Waiting {
            self.lobby_ready_tick = None;
        }
        if phase == MatchPhase::Combat {
            self.combat_started_tick = self.tick;
        }
    }

    fn finish_if_decided(&mut self)
        ensures
            final(self)@ == finish_if_decided(old(self)@),
    {
        if self.phase != MatchPhase::Combat {
            return;
        }
        let alive = self.alive_player_ids();
        if alive.len() == 1 {
            self.winner = Some(alive[0]);
            self.start_phase(MatchPhase::Finished);
        } else if alive.len() == 0 {
            self.winner = None;
            self.start_phase(MatchPhase::Finished);
        }
    }

    /// Admit a player to the lobby.
    pub fn add_player(&mut self, player_id: PlayerId) -> (r: Result<(), MatchError>)
        requires
            old(self).wf(),
        ensures
            final(self).wf(),
            follows(r, old(self)@, final(self)@, admission(old(self)@, player_id)),
    {
        if self.phase != MatchPhase::Waiting {
            return Err(MatchError::new("match admission is closed"));
        }
        if self.find_player(player_id).is_some() {
            return Err(MatchError::new("player already exists in match"));
        }
        if self.players.len() >= MAX_PLAYERS_PER_MATCH {
            return Err(MatchError::new("match player capacity reached"));
        }
        let spawn_slot = match self.available_spawn_slot() {
            Some(slot) => slot,
            None => {
                return Err(MatchError::new("match spawn capacity reached"));
            },
        };
        let position = spawn_position_of(spawn_slot);
        let entry = CanonicalPlayerSnapshot {
            player_id,
            position,
            velocity: [0, 0, 0],
            movement_x: 0,
            movement_z: 0,
            last_sequence: 0,
            spawn_slot,
            health: MAX_HEALTH,
            alive: true,
            elimination_tick: None,
            elimination_cause: None,
        };
        // Insert before the first player with a larger id.
        let mut k: usize = 0;
        while k < self.players.len() && self.players[k].player_id < player_id
            invariant
                k <= self.players@.len(),
                forall|i: int| 0 <= i < k ==> #[trigger] self.players@[i].player_id < player_id,
            decreases self.players.len() - k,
        {
            k = k + 1;
        }
        let ghost old_players = self.players@;
        proof {
            lemma_first_free_slot(old_players, 0);
            let slot = spawn_slot;
            assert(!has_player(old_players, player_id));
            assert forall|i: int| k <= i < old_players.len() implies #[trigger] old_players[i].player_id
                > player_id by {
                if k < old_players.len() {
                    assert(old_players[k as int].player_id >= player_id);
                    assert(old_players[k as int].player_id != player_id);
                    if i > k {
                        assert(old_players[k as int].player_id < old_players[i].player_id);
                    }
                }
            }
            let c = insertion_point(old_players, player_id);
            assert(splits_at(old_players, player_id, k as int));
            if c < k {
                assert(old_players[c].player_id < player_id);
            } else if k < c {
                assert(old_players[k as int].player_id < player_id);
            }
            assert(c == k);
        }
        self.players.insert(k, entry);
        proof {
            let np = self.players@;
            assert(np == old_players.insert(k as int, entry));
            assert(entry == new_player(player_id, spawn_slot));
            assert(!slot_used(old_players, spawn_slot as int));
            assert forall|i: int, j: int|
                0 <= i < j < np.len() implies #[trigger] np[i].player_id
                < #[trigger] np[j].player_id by {
                if j < k {
                } else if j == k {
                } else if i < k {
                } else if i == k {
                    assert(np[j] == old_players[j - 1]);
                } else {
                    assert(np[i] == old_players[i - 1]);
                    assert(np[j] == old_players[j - 1]);
                }
            }
            assert forall|i: int, j: int|
                0 <= i < np.len() && 0 <= j < np.len() && i != j implies #[trigger] np[i].spawn_slot
                != #[trigger] np[j].spawn_slot by {
                if i == k {
                    let jj = if j < k { j } else { j - 1 };
                    assert(np[j] == old_players[jj]);
                    if np[j].spawn_slot == spawn_slot {
                        assert(slot_used(old_players, spawn_slot as int));
                    }
                } else if j == k {
                    let ii = if i < k { i } else { i - 1 };
                    assert(np[i] == old_players[ii]);
                    if np[i].spawn_slot == spawn_slot {
                        assert(slot_used(old_players, spawn_slot as int));
                    }
                } else {
                    let ii = if i < k { i } else { i - 1 };
                    let jj = if j < k { j } else { j - 1 };
                    assert(np[i] == old_players[ii]);
                    assert(np[j] == old_players[jj]);
                }
            }
            assert forall|i: int| 0 <= i < np.len() implies #[trigger] player_ok(np[i]) by {
                if i < k {
                } else if i > k {
                    assert(np[i] == old_players[i - 1]);
                }
            }
        }
        self.refresh_lobby_ready_tick();
        Ok(())
    }

    /// Retire a player's session: before the match starts the player leaves the lobby; after,
    /// an alive player is eliminated as `SessionExpired`. Returns whether the player was known.
    pub fn remove_player(&mut self, player_id: PlayerId) -> (removed: bool)
        requires
            old(self).wf(),
        ensures
            final(self).wf(),
            removed == has_player(old(self)@.players, player_id),
            final(self)@ == removal(old(self)@, player_id),
    {
        let i = match self.find_player(player_id) {
            Some(i) => i,
            None => {
                return false;
            },
        };
        if self.phase == MatchPhase::Waiting {
            let ghost old_players = self.players@;
            self.players.remove(i);
            proof {
                let np = self.players@;
                assert(np == old_players.remove(i as int));
                assert forall|a: int, b: int|
                    0 <= a < b < np.len() implies #[trigger] np[a].player_id
                    < #[trigger] np[b].player_id by {
                    let aa = if a < i { a } else { a + 1 };
                    let bb = if b < i { b } else { b + 1 };
                    assert(np[a] == old_players[aa]);
                    assert(np[b] == old_players[bb]);
                }
                assert forall|a: int, b: int|
                    0 <= a < np.len() && 0 <= b < np.len() && a != b implies #[trigger] np[a].spawn_slot
                    != #[trigger] np[b].spawn_slot by {
                    let aa = if a < i { a } else { a + 1 };
                    let bb = if b < i { b } else { b + 1 };
                    assert(np[a] == old_players[aa]);
                    assert(np[b] == old_players[bb]);
                }
                assert forall|a: int| 0 <= a < np.len() implies #[trigger] player_ok(np[a]) by {
                    let aa = if a < i { a } else { a + 1 };
                    assert(np[a] == old_players[aa]);
                }
            }
            self.refresh_lobby_ready_tick();
            return true;
        }
        if self.players[i].alive {
            self.eliminate_at(i, EliminationCause::SessionExpired);
            self.finish_if_decided();
        }
        true
    }

    /// Eliminate the player at `i` at the current tick.
    fn eliminate_at(&mut self, i: usize, cause: EliminationCause)
        requires
            old(self).wf(),
            i < old(self)@.players.len(),
        ensures
            final(self).wf(),
            final(self)@ == (MatchView {
                players: old(self)@.players.update(
                    i as int,
                    eliminated(old(self)@.players[i as int], old(self)@.tick, cause),
                ),
                ..old(self)@
            }),
    {
        let p = self.players[i];
        if p.alive {
            let q = CanonicalPlayerSnapshot {
                alive: false,
                health: 0,
                movement_x: 0,
                movement_z: 0,
                velocity: [0, 0, 0],
                elimination_tick: Some(self.tick),
                elimination_cause: Some(cause),
                ..p
            };
            self.players.set(i, q);
        } else {
            assert(self.players@.update(i as int, p) =~= self.players@);
        }
        proof {
            assert forall|a: int| 0 <= a < self.players@.len() implies (#[trigger] self.players@[a]).player_id
                == old(self)@.players[a].player_id && self.players@[a].spawn_slot
                == old(self)@.players[a].spawn_slot && player_ok(self.players@[a]) by {
                assert(player_ok(old(self)@.players[a]));
            }
            lemma_well_formed_pointwise(old(self)@, self.players@);
        }
    }

    /// Accept a player's movement intent under a strictly increasing command sequence.
    pub fn apply_command(&mut self, player_id: PlayerId, sequence: u32, command: MatchCommand) -> (r: Result<(), MatchError>)
        requires
            old(self).wf(),
        ensures
            final(self).wf(),
            follows(r, old(self)@, final(self)@, command_outcome(old(self)@, player_id, sequence, command)),
    {
        if self.phase == MatchPhase::Finished {
            return Err(MatchError::new("match is finished"));
        }
        let i = match self.find_player(player_id) {
            Some(i) => i,
            None => {
                return Err(MatchError::new("unknown player"));
            },
        };
        let p = self.players[i];
        if !p.alive {
            return Err(MatchError::new("player is eliminated"));
        }
        if sequence == 0 || sequence <= p.last_sequence {
            return Err(MatchError::new("command sequence is stale"));
        }
        let (x, z) = match command {
            MatchCommand::SetMovement { x, z } => (x, z),
        };
        if !(-1 <= x && x <= 1) || !(-1 <= z && z <= 1) {
            return Err(MatchError::new("movement components must be between -1 and 1"));
        }
        let q = CanonicalPlayerSnapshot { movement_x: x, movement_z: z, last_sequence: sequence, ..p };
        self.players.set(i, q);
        proof {
            assert forall|a: int| 0 <= a < self.players@.len() implies (#[trigger] self.players@[a]).player_id
                == old(self)@.players[a].player_id && self.players@[a].spawn_slot
                == old(self)@.players[a].spawn_slot && player_ok(self.players@[a]) by {
                assert(player_ok(old(self)@.players[a]));
            }
            lemma_well_formed_pointwise(old(self)@, self.players@);
        }
        Ok(())
    }

    /// The safe zone of the match at its current tick.
    pub fn storm_snapshot(&self) -> (storm: StormSnapshot)
        ensures
            storm == storm_of(self@),
    {
        let center = storm_center_of(self.match_id);
        if self.phase != MatchPhase::Combat && self.phase != MatchPhase::Finished {
            return StormSnapshot { center, radius: INITIAL_STORM_RADIUS_UNITS, damage_active: false };
        }
        let elapsed: u64 = if self.phase == MatchPhase::Combat {
            self.tick.saturating_sub(self.combat_started_tick)
        } else {
            self.phase_started_tick.saturating_sub(self.combat_started_tick)
        };
        if elapsed <= STORM_DELAY_TICKS {
            return StormSnapshot { center, radius: INITIAL_STORM_RADIUS_UNITS, damage_active: false };
        }
        let shrink_elapsed: u64 = if elapsed - STORM_DELAY_TICKS <= STORM_SHRINK_DURATION_TICKS {
            elapsed - STORM_DELAY_TICKS
        } else {
            STORM_SHRINK_DURATION_TICKS
        };
        let shrink: i64 = (48_000i64 * shrink_elapsed as i64) / 900i64;
        let radius: i64 = INITIAL_STORM_RADIUS_UNITS as i64 - shrink;
        StormSnapshot { center, radius: radius as i32, damage_active: true }
    }

    /// Storm damage for every alive player outside an active safe zone.
    fn apply_storm_damage(&mut self)
        requires
            old(self).wf(),
        ensures
            final(self).wf(),
            final(self)@ == storm_applied(old(self)@),
    {
        let storm = self.storm_snapshot();
        let ghost v = self@;
        let n = self.players.len();
        let mut i: usize = 0;
        while i < n
            invariant
                n == v.players.len(),
                self@ == (MatchView { players: self.players@, ..v }),
                storm == storm_of(v),
                i <= n,
                self.players@.len() == n,
                forall|j: int| 0 <= j < i ==> #[trigger] self.players@[j] == storm_damaged(v.players[j], storm, v.tick),
                forall|j: int| i <= j < n ==> #[trigger] self.players@[j] == v.players[j],
            decreases n - i,
        {
            let p = self.players[i];
            if p.alive && storm.damage_active && outside(p.position, storm.center[0], storm.center[1], storm.radius) {
                let health = p.health.saturating_sub(STORM_DAMAGE_PER_TICK);
                let q = if health == 0 {
                    CanonicalPlayerSnapshot {
                        alive: false,
                        health: 0,
                        movement_x: 0,
                        movement_z: 0,
                        velocity: [0, 0, 0],
                        elimination_tick: Some(self.tick),
                        elimination_cause: Some(EliminationCause::Storm),
                        ..p
                    }
                } else {
                    CanonicalPlayerSnapshot { health, ..p }
                };
                self.players.set(i, q);
            }
            i = i + 1;
        }
        proof {
            assert(self.players@ =~= v.players.map_values(|p| storm_damaged(p, storm, v.tick)));
            assert forall|a: int| 0 <= a < self.players@.len() implies (#[trigger] self.players@[a]).player_id
                == v.players[a].player_id && self.players@[a].spawn_slot == v.players[a].spawn_slot
                && player_ok(self.players@[a]) by {
                assert(player_ok(v.players[a]));
            }
            lemma_well_formed_pointwise(v, self.players@);
        }
    }

    /// Velocities for the physics world: one per alive player, none once the match is finished.
    pub fn movement_velocities(&self) -> (plan: Vec<(PlayerId, [i32; 3])>)
        requires
            self.wf(),
        ensures
            plan@ == (if self@.phase == MatchPhase::Finished {
                Seq::empty()
            } else {
                movement_plan(self@.players)
            }),
    {
        let mut plan: Vec<(PlayerId, [i32; 3])> = Vec::new();
        if self.phase == MatchPhase::Finished {
            return plan;
        }
        let mut i: usize = 0;
        while i < self.players.len()
            invariant
                self.wf(),
                i <= self.players@.len(),
                plan@ == movement_plan(self.players@.take(i as int)),
            decreases self.players.len() - i,
        {
            proof {
                lemma_movement_plan_step(self.players@, i as int);
                assert(player_ok(self.players@[i as int]));
            }
            let p = self.players[i];
            if p.alive {
                plan.push((p.player_id, movement_velocity_of(&p)));
            }
            i = i + 1;
        }
        assert(self.players@.take(i as int) =~= self.players@);
        plan
    }

    /// The phase rules after the tick counter moved on.
    fn run_phase_rules(&mut self)
        requires
            old(self).wf(),
        ensures
            final(self).wf(),
            final(self)@ == phase_step(old(self)@),
    {
        match self.phase {
            MatchPhase::Waiting => {
                self.refresh_lobby_ready_tick();
                let countdown_complete = match self.lobby_ready_tick {
                    Some(ready_tick) => self.tick.saturating_sub(ready_tick) >= LOBBY_COUNTDOWN_TICKS,
                    None => false,
                };
                if self.players.len() == MAX_PLAYERS_PER_MATCH || countdown_complete {
                    self.start_phase(MatchPhase::Drop);
                }
            },
            MatchPhase::Drop => {
                if self.tick.saturating_sub(self.phase_started_tick) >= DROP_DURATION_TICKS {
                    self.start_phase(MatchPhase::Combat);
                    self.finish_if_decided();
                }
            },
            MatchPhase::Combat => {
                self.apply_storm_damage();
                self.finish_if_decided();
            },
            MatchPhase::Finished => {},
        }
    }

    /// Advance the match by one tick. `bodies` are the physics bodies after stepping the world
    /// with `movement_velocities`; each alive player needs one unless the match is finished.
    pub fn advance_tick(&mut self, bodies: &[BodyState]) -> (r: Result<(), MatchError>)
        requires
            old(self).wf(),
        ensures
            final(self).wf(),
            follows(r, old(self)@, final(self)@, tick_outcome(old(self)@, bodies@)),
    {
        if self.tick == u64::MAX {
            return Err(MatchError::new("match tick overflow"));
        }
        if self.phase != MatchPhase::Finished {
            let moved = match moved_players(&self.players, bodies) {
                Some(moved) => moved,
                None => {
                    return Err(MatchError::new("player physics body is missing"));
                },
            };
            proof {
                let v = self@;
                assert forall|a: int| 0 <= a < moved@.len() implies (#[trigger] moved@[a]).player_id
                    == v.players[a].player_id && moved@[a].spawn_slot == v.players[a].spawn_slot
                    && player_ok(moved@[a]) by {
                    assert(player_ok(v.players[a]));
                }
                lemma_well_formed_pointwise(v, moved@);
            }
            self.players = moved;
        }
        self.tick = self.tick + 1;
        self.run_phase_rules();
        Ok(())
    }

    /// The complete state, every player included, for replay and recovery.
    pub fn snapshot(&self) -> (s: CanonicalMatchSnapshot)
        ensures
            is_canonical_snapshot_of(s, self@),
    {
        let mut players: Vec<CanonicalPlayerSnapshot> = Vec::new();
        let mut i: usize = 0;
        while i < self.players.len()
            invariant
                i <= self.players@.len(),
                players@ == self.players@.take(i as int),
            decreases self.players.len() - i,
        {
            players.push(self.players[i]);
            i = i + 1;
            assert(players@ =~= self.players@.take(i as int));
        }
        assert(self.players@.take(i as int) =~= self.players@);
        CanonicalMatchSnapshot {
            schema_version: SNAPSHOT_SCHEMA_VERSION,
            ruleset_revision: RULESET_REVISION,
            match_id: self.match_id,
            tick: self.tick,
            phase: self.phase,
            phase_started_tick: self.phase_started_tick,
            lobby_ready_tick: self.lobby_ready_tick,
            storm: self.storm_snapshot(),
            winner: self.winner,
            players,
        }
    }

    /// What one player may see: the shared header, its own acknowledged sequence, itself and
    /// every player within the interest radius.
    pub fn snapshot_for_player(&self, player_id: PlayerId) -> (r: Result<MatchSnapshot, MatchError>)
        requires
            self.wf(),
        ensures
            r is Ok <==> has_player(self@.players, player_id),
            !has_player(self@.players, player_id) ==> fails_with(r, "unknown player"@),
            r matches Ok(s) ==> is_player_snapshot_of(
                s,
                self@,
                self@.players[index_of(self@.players, player_id)],
            ),
    {
        let viewer = match self.find_player(player_id) {
            Some(i) => self.players[i],
            None => {
                return Err(MatchError::new("unknown player"));
            },
        };
        let mut players: Vec<PlayerSnapshot> = Vec::new();
        let mut i: usize = 0;
        while i < self.players.len()
            invariant
                i <= self.players@.len(),
                viewer.player_id == player_id,
                players@ == visible_players(self.players@.take(i as int), viewer),
            decreases self.players.len() - i,
        {
            proof {
                lemma_visible_step(self.players@, viewer, i as int);
            }
            let p = self.players[i];
            if p.player_id == player_id || !outside(
                p.position,
                viewer.position[0],
                viewer.position[2],
                INTEREST_RADIUS_UNITS,
            ) {
                players.push(
                    PlayerSnapshot {
                        player_id: p.player_id,
                        position: p.position,
                        velocity: p.velocity,
                        health: p.health,
                        alive: p.alive,
                        elimination_tick: p.elimination_tick,
                        elimination_cause: p.elimination_cause,
                    },
                );
            }
            i = i + 1;
        }
        assert(self.players@.take(i as int) =~= self.players@);
        Ok(
            MatchSnapshot {
                schema_version: SNAPSHOT_SCHEMA_VERSION,
                ruleset_revision: RULESET_REVISION,
                match_id: self.match_id,
                tick: self.tick,
                phase: self.phase,
                phase_started_tick: self.phase_started_tick,
                lobby_ready_tick: self.lobby_ready_tick,
                storm: self.storm_snapshot(),
                winner: self.winner,
                acknowledged_sequence: viewer.last_sequence,
                players,
            },
        )
    }
}

} // verus!
