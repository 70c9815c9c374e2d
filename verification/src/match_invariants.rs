//! What holds of every match state reachable from a new match by admissions, retirements,
//! commands and ticks.
use vstd::prelude::*;
use crate::match_types::{
    phase_rank, CanonicalMatchSnapshot, MatchError, CanonicalPlayerSnapshot, EliminationCause, MatchCommand, MatchPhase, PlayerId, BattleMatchId,
    MAX_HEALTH, MIN_PLAYERS_TO_START,
};
use crate::rules::{
    admission, admitted, advanced, alive_ids, command_outcome, free_slot, insertion_point,
    lemma_first_free_slot, new_player, removal, retired, slot_used, splits_at, commanded, eliminated, finish_if_decided, fresh_match,
    has_player, index_of, lemma_well_formed_pointwise, moved_player, movement_applied, phase_step,
    player_ok, refresh_lobby, start_phase, storm_applied, storm_damaged, storm_of, tick_outcome,
    follows, well_formed, BodyState, MatchView,
};
use crate::match_laws::lemma_phase_moves_forward;
use crate::protocol::canonical_snapshot_bytes;
use crate::server_adapter::header_of;
use crate::simulation::is_canonical_snapshot_of;

verus! {

/// A player's own state is coherent: alive exactly when no elimination is recorded, alive
/// players have health, and an eliminated player has none, stands still and was eliminated no
/// later than `tick`.
pub open spec fn player_consistent(p: CanonicalPlayerSnapshot, tick: u64) -> bool {
    &&& (p.alive <==> p.elimination_tick is None)
    &&& (p.alive <==> p.elimination_cause is None)
    &&& p.alive ==> 0 < p.health <= MAX_HEALTH
    &&& !p.alive ==> p.health == 0 && p.movement_x == 0 && p.movement_z == 0 && p.velocity == [
        0i32,
        0,
        0,
    ]
    &&& p.elimination_tick matches Some(t) ==> t <= tick
}

/// Every player is coherent; in the lobby everybody is alive and the countdown runs exactly
/// while enough players are present; no countdown outside the lobby; a winner only once the
/// match is finished.
pub open spec fn players_consistent(v: MatchView) -> bool {
    &&& forall|i: int| 0 <= i < v.players.len() ==> #[trigger] player_consistent(v.players[i], v.tick)
    &&& v.phase == MatchPhase::Waiting ==> forall|i: int|
        0 <= i < v.players.len() ==> (#[trigger] v.players[i]).alive
    &&& v.phase == MatchPhase::Waiting ==> (v.lobby_ready_tick is Some <==> v.players.len()
        >= MIN_PLAYERS_TO_START)
    &&& v.phase != MatchPhase::Waiting ==> v.lobby_ready_tick is None
    &&& v.winner is Some ==> v.phase == MatchPhase::Finished
}

/// The state invariant of a reachable match: coherent players, at least two alive during
/// combat and at most one once finished.
pub open spec fn consistent(v: MatchView) -> bool {
    &&& players_consistent(v)
    &&& v.phase == MatchPhase::Combat ==> alive_ids(v.players).len() >= 2
    &&& v.phase == MatchPhase::Finished ==> alive_ids(v.players).len() <= 1
}

/// No more players are alive than are admitted.
pub proof fn lemma_alive_count_bounded(players: Seq<CanonicalPlayerSnapshot>)
    ensures
        alive_ids(players).len() <= players.len(),
    decreases players.len(),
{
    if players.len() > 0 {
        lemma_alive_count_bounded(players.drop_last());
    }
}

/// Where every player alive in `q` is alive in `p`, `q` has no more alive players than `p`.
proof fn lemma_alive_count_le(p: Seq<CanonicalPlayerSnapshot>, q: Seq<CanonicalPlayerSnapshot>)
    requires
        p.len() == q.len(),
        forall|i: int| 0 <= i < q.len() && (#[trigger] q[i]).alive ==> p[i].alive,
    ensures
        alive_ids(q).len() <= alive_ids(p).len(),
    decreases p.len(),
{
    if p.len() > 0 {
        let pd = p.drop_last();
        let qd = q.drop_last();
        assert forall|i: int| 0 <= i < qd.len() && (#[trigger] qd[i]).alive implies pd[i].alive by {
            assert(q[i].alive);
        }
        lemma_alive_count_le(pd, qd);
        assert(q[q.len() - 1].alive ==> p[p.len() - 1].alive);
    }
}

/// Lists that agree on who is alive have as many alive players.
proof fn lemma_alive_count_same(p: Seq<CanonicalPlayerSnapshot>, q: Seq<CanonicalPlayerSnapshot>)
    requires
        p.len() == q.len(),
        forall|i: int| 0 <= i < q.len() ==> (#[trigger] q[i]).alive == p[i].alive,
    ensures
        alive_ids(q).len() == alive_ids(p).len(),
{
    assert forall|i: int| 0 <= i < q.len() && (#[trigger] q[i]).alive implies p[i].alive by {}
    assert forall|i: int| 0 <= i < p.len() && (#[trigger] p[i]).alive implies q[i].alive by {
        assert(q[i].alive == p[i].alive);
    }
    lemma_alive_count_le(p, q);
    lemma_alive_count_le(q, p);
}

/// A new match is well formed and consistent.
pub proof fn lemma_fresh_match_consistent(match_id: BattleMatchId)
    ensures
        well_formed(fresh_match(match_id)),
        consistent(fresh_match(match_id)),
{
    assert(alive_ids(fresh_match(match_id).players).len() == 0);
}

/// An accepted movement command keeps a match well formed and consistent.
pub proof fn lemma_command_keeps_invariant(v: MatchView, id: PlayerId, sequence: u32, command: MatchCommand)
    requires
        well_formed(v),
        consistent(v),
    ensures
        command_outcome(v, id, sequence, command) matches Ok(w) ==> well_formed(w) && consistent(w),
{
    if let Ok(w) = command_outcome(v, id, sequence, command) {
        let MatchCommand::SetMovement { x, z } = command;
        let i = index_of(v.players, id);
        assert(0 <= i < v.players.len());
        let p = v.players[i];
        assert(w.players == v.players.update(i, commanded(p, sequence, x, z)));
        assert forall|a: int| 0 <= a < w.players.len() implies (#[trigger] w.players[a]).player_id
            == v.players[a].player_id && w.players[a].spawn_slot == v.players[a].spawn_slot
            && player_ok(w.players[a]) by {
            assert(player_ok(v.players[a]));
        }
        lemma_well_formed_pointwise(v, w.players);
        assert forall|a: int| 0 <= a < w.players.len() implies #[trigger] player_consistent(
            w.players[a],
            w.tick,
        ) by {
            assert(player_consistent(v.players[a], v.tick));
        }
        assert forall|a: int| 0 <= a < w.players.len() implies (#[trigger] w.players[a]).alive
            == v.players[a].alive by {}
        lemma_alive_count_same(v.players, w.players);
        if v.phase == MatchPhase::Waiting {
            assert forall|a: int| 0 <= a < w.players.len() implies (#[trigger] w.players[a]).alive by {
                assert(v.players[a].alive);
            }
        }
    }
}

/// Deciding a combat: whatever `finish_if_decided` does, the result is well formed and
/// consistent.
proof fn lemma_finish_keeps(x: MatchView)
    requires
        well_formed(x),
        players_consistent(x),
        x.phase == MatchPhase::Combat,
    ensures
        well_formed(finish_if_decided(x)),
        consistent(finish_if_decided(x)),
{
    let w = finish_if_decided(x);
    assert(w.players == x.players);
    assert(w.tick == x.tick);
    assert forall|i: int| 0 <= i < w.players.len() implies #[trigger] player_consistent(
        w.players[i],
        w.tick,
    ) by {
        assert(player_consistent(x.players[i], x.tick));
    }
}

/// Storm damage keeps each player coherent and the match well formed.
proof fn lemma_storm_keeps(t: MatchView)
    requires
        well_formed(t),
        players_consistent(t),
        t.phase == MatchPhase::Combat,
    ensures
        well_formed(storm_applied(t)),
        players_consistent(storm_applied(t)),
        storm_applied(t).phase == MatchPhase::Combat,
{
    let s = storm_applied(t);
    let storm = storm_of(t);
    assert forall|a: int| 0 <= a < s.players.len() implies (#[trigger] s.players[a]).player_id
        == t.players[a].player_id && s.players[a].spawn_slot == t.players[a].spawn_slot
        && player_ok(s.players[a]) && player_consistent(s.players[a], s.tick) by {
        assert(s.players[a] == storm_damaged(t.players[a], storm, t.tick));
        assert(player_ok(t.players[a]));
        assert(player_consistent(t.players[a], t.tick));
    }
    lemma_well_formed_pointwise(t, s.players);
}

/// The players after the physics step, at the next tick, are well formed and consistent.
proof fn lemma_movement_keeps(v: MatchView, bodies: Seq<BodyState>)
    requires
        well_formed(v),
        consistent(v),
        v.tick < u64::MAX,
    ensures
        ({
            let t = MatchView { tick: (v.tick + 1) as u64, ..movement_applied(v, bodies) };
            well_formed(t) && consistent(t) && t.phase == v.phase && t.lobby_ready_tick
                == v.lobby_ready_tick && t.winner == v.winner && t.players.len() == v.players.len()
                && t.phase_started_tick == v.phase_started_tick
        }),
{
    let m = movement_applied(v, bodies);
    let t = MatchView { tick: (v.tick + 1) as u64, ..m };
    assert forall|a: int| 0 <= a < m.players.len() implies (#[trigger] m.players[a]).player_id
        == v.players[a].player_id && m.players[a].spawn_slot == v.players[a].spawn_slot
        && player_ok(m.players[a]) && player_consistent(m.players[a], t.tick)
        && m.players[a].alive == v.players[a].alive by {
        assert(player_ok(v.players[a]));
        assert(player_consistent(v.players[a], v.tick));
        if v.phase != MatchPhase::Finished {
            assert(m.players[a] == moved_player(v.players[a], bodies));
        }
    }
    lemma_well_formed_pointwise(v, m.players);
    lemma_alive_count_same(v.players, m.players);
    assert forall|i: int| 0 <= i < t.players.len() implies #[trigger] player_consistent(
        t.players[i],
        t.tick,
    ) by {
        assert(player_consistent(m.players[i], t.tick));
    }
    if v.phase == MatchPhase::Waiting {
        assert forall|i: int| 0 <= i < t.players.len() implies (#[trigger] t.players[i]).alive by {
            assert(v.players[i].alive);
            assert(m.players[i].alive == v.players[i].alive);
        }
    }
}

/// A tick keeps a match well formed and consistent.
pub proof fn lemma_tick_keeps_invariant(v: MatchView, bodies: Seq<BodyState>)
    requires
        well_formed(v),
        consistent(v),
    ensures
        tick_outcome(v, bodies) matches Ok(w) ==> well_formed(w) && consistent(w),
{
    if v.tick < u64::MAX {
        lemma_movement_keeps(v, bodies);
        let t = MatchView { tick: (v.tick + 1) as u64, ..movement_applied(v, bodies) };
        let w = advanced(v, bodies);
        assert(w == phase_step(t));
        match t.phase {
            MatchPhase::Waiting => {
                let r = refresh_lobby(t);
                assert(r.players == t.players);
                assert forall|i: int| 0 <= i < r.players.len() implies #[trigger] player_consistent(
                    r.players[i],
                    r.tick,
                ) by {
                    assert(player_consistent(t.players[i], t.tick));
                }
                assert(players_consistent(r));
                let d = start_phase(r, MatchPhase::Drop);
                assert(d.players == t.players);
                assert forall|i: int| 0 <= i < d.players.len() implies #[trigger] player_consistent(
                    d.players[i],
                    d.tick,
                ) by {
                    assert(player_consistent(t.players[i], t.tick));
                }
            },
            MatchPhase::Drop => {
                let x = start_phase(t, MatchPhase::Combat);
                assert(x.players == t.players);
                assert forall|i: int| 0 <= i < x.players.len() implies #[trigger] player_consistent(
                    x.players[i],
                    x.tick,
                ) by {
                    assert(player_consistent(t.players[i], t.tick));
                }
                lemma_finish_keeps(x);
            },
            MatchPhase::Combat => {
                lemma_storm_keeps(t);
                lemma_finish_keeps(storm_applied(t));
            },
            MatchPhase::Finished => {},
        }
    }
}

/// Retiring a player's session keeps a match well formed and consistent.
pub proof fn lemma_removal_keeps_invariant(v: MatchView, id: PlayerId)
    requires
        well_formed(v),
        consistent(v),
    ensures
        well_formed(removal(v, id)),
        consistent(removal(v, id)),
{
    if has_player(v.players, id) {
        let i = index_of(v.players, id);
        assert(0 <= i < v.players.len());
        if v.phase == MatchPhase::Waiting {
            let np = v.players.remove(i);
            let x = MatchView { players: np, ..v };
            assert forall|a: int, b: int| 0 <= a < b < np.len() implies #[trigger] np[a].player_id
                < #[trigger] np[b].player_id by {
                let aa = if a < i { a } else { a + 1 };
                let bb = if b < i { b } else { b + 1 };
                assert(np[a] == v.players[aa]);
                assert(np[b] == v.players[bb]);
            }
            assert forall|a: int, b: int|
                0 <= a < np.len() && 0 <= b < np.len() && a != b implies #[trigger] np[a].spawn_slot
                != #[trigger] np[b].spawn_slot by {
                let aa = if a < i { a } else { a + 1 };
                let bb = if b < i { b } else { b + 1 };
                assert(np[a] == v.players[aa]);
                assert(np[b] == v.players[bb]);
            }
            assert forall|a: int| 0 <= a < np.len() implies #[trigger] player_ok(np[a])
                && player_consistent(np[a], v.tick) && np[a].alive by {
                let aa = if a < i { a } else { a + 1 };
                assert(np[a] == v.players[aa]);
                assert(player_ok(v.players[aa]));
                assert(player_consistent(v.players[aa], v.tick));
                assert(v.players[aa].alive);
            }
            assert(well_formed(x));
            let w = refresh_lobby(x);
            assert(w.players == np);
            assert forall|a: int| 0 <= a < w.players.len() implies #[trigger] player_consistent(
                w.players[a],
                w.tick,
            ) by {
                assert(player_consistent(np[a], v.tick));
            }
        } else if v.players[i].alive {
            let q = eliminated(v.players[i], v.tick, EliminationCause::SessionExpired);
            let x = MatchView { players: v.players.update(i, q), ..v };
            assert forall|a: int| 0 <= a < x.players.len() implies (#[trigger] x.players[a]).player_id
                == v.players[a].player_id && x.players[a].spawn_slot == v.players[a].spawn_slot
                && player_ok(x.players[a]) && player_consistent(x.players[a], x.tick) && (
                x.players[a].alive ==> v.players[a].alive) by {
                assert(player_ok(v.players[a]));
                assert(player_consistent(v.players[a], v.tick));
            }
            lemma_well_formed_pointwise(v, x.players);
            lemma_alive_count_le(v.players, x.players);
            assert(removal(v, id) == retired(v, id));
            assert(retired(v, id) == finish_if_decided(x));
            if v.phase == MatchPhase::Combat {
                lemma_finish_keeps(x);
            }
        }
    }
}

/// Among players listed by increasing id, a new id has a place.
proof fn lemma_insertion_point_exists(players: Seq<CanonicalPlayerSnapshot>, id: PlayerId)
    requires
        forall|i: int, j: int|
            0 <= i < j < players.len() ==> #[trigger] players[i].player_id
                < #[trigger] players[j].player_id,
        !has_player(players, id),
    ensures
        exists|k: int| #[trigger] splits_at(players, id, k),
    decreases players.len(),
{
    if players.len() == 0 {
        assert(splits_at(players, id, 0));
    } else {
        let n = players.len() - 1;
        let last = players[n];
        assert(last.player_id != id);
        if last.player_id < id {
            assert forall|i: int| 0 <= i < n + 1 implies #[trigger] players[i].player_id < id by {
                if i < n {
                    assert(players[i].player_id < players[n].player_id);
                }
            }
            assert(splits_at(players, id, n + 1));
        } else {
            let d = players.drop_last();
            assert forall|i: int, j: int| 0 <= i < j < d.len() implies #[trigger] d[i].player_id
                < #[trigger] d[j].player_id by {
                assert(players[i].player_id < players[j].player_id);
            }
            assert(!has_player(d, id)) by {
                if has_player(d, id) {
                    let a = choose|a: int| 0 <= a < d.len() && #[trigger] d[a].player_id == id;
                    assert(players[a].player_id == id);
                }
            }
            lemma_insertion_point_exists(d, id);
            let k = choose|k: int| #[trigger] splits_at(d, id, k);
            assert forall|i: int| k <= i < players.len() implies #[trigger] players[i].player_id > id by {
                if i < n {
                    assert(d[i] == players[i]);
                }
            }
            assert forall|i: int| 0 <= i < k implies #[trigger] players[i].player_id < id by {
                assert(d[i] == players[i]);
            }
            assert(splits_at(players, id, k));
        }
    }
}

/// Admitting a player keeps a match well formed and consistent.
pub proof fn lemma_admission_keeps_invariant(v: MatchView, id: PlayerId)
    requires
        well_formed(v),
        consistent(v),
    ensures
        admission(v, id) matches Ok(w) ==> well_formed(w) && consistent(w),
{
    if let Ok(w) = admission(v, id) {
        let slot = free_slot(v.players)->Some_0;
        lemma_first_free_slot(v.players, 0);
        let p = new_player(id, slot);
        lemma_insertion_point_exists(v.players, id);
        let k = insertion_point(v.players, id);
        assert(splits_at(v.players, id, k));
        let np = admitted(v.players, p);
        assert(np == v.players.insert(k, p));
        assert(!slot_used(v.players, slot as int));
        assert forall|i: int, j: int| 0 <= i < j < np.len() implies #[trigger] np[i].player_id
            < #[trigger] np[j].player_id by {
            if j < k {
            } else if j == k {
            } else if i < k {
                assert(np[j] == v.players[j - 1]);
            } else if i == k {
                assert(np[j] == v.players[j - 1]);
            } else {
                assert(np[i] == v.players[i - 1]);
                assert(np[j] == v.players[j - 1]);
            }
        }
        assert forall|i: int, j: int|
            0 <= i < np.len() && 0 <= j < np.len() && i != j implies #[trigger] np[i].spawn_slot
            != #[trigger] np[j].spawn_slot by {
            if i == k {
                let jj = if j < k { j } else { j - 1 };
                assert(np[j] == v.players[jj]);
                if np[j].spawn_slot == slot {
                    assert(slot_used(v.players, slot as int));
                }
            } else if j == k {
                let ii = if i < k { i } else { i - 1 };
                assert(np[i] == v.players[ii]);
                if np[i].spawn_slot == slot {
                    assert(slot_used(v.players, slot as int));
                }
            } else {
                let ii = if i < k { i } else { i - 1 };
                let jj = if j < k { j } else { j - 1 };
                assert(np[i] == v.players[ii]);
                assert(np[j] == v.players[jj]);
            }
        }
        assert forall|i: int| 0 <= i < np.len() implies #[trigger] player_ok(np[i])
            && player_consistent(np[i], v.tick) && np[i].alive by {
            if i < k {
                assert(player_ok(v.players[i]));
                assert(player_consistent(v.players[i], v.tick));
                assert(v.players[i].alive);
            } else if i > k {
                assert(np[i] == v.players[i - 1]);
                assert(player_ok(v.players[i - 1]));
                assert(player_consistent(v.players[i - 1], v.tick));
                assert(v.players[i - 1].alive);
            }
        }
        let x = MatchView { players: np, ..v };
        assert(well_formed(x));
        assert(w == refresh_lobby(x));
        assert(w.players == np);
        assert forall|a: int| 0 <= a < w.players.len() implies #[trigger] player_consistent(
            w.players[a],
            w.tick,
        ) by {
            assert(player_consistent(np[a], v.tick));
        }
    }
}

/// One public operation on a match, with its arguments; a tick carries the physics bodies it
/// was handed.
pub enum MatchCall {
    AddPlayer(PlayerId),
    RemovePlayer(PlayerId),
    ApplyCommand(PlayerId, u32, MatchCommand),
    AdvanceTick(Seq<BodyState>),
}

/// The state an operation leaves: the new state when it succeeded, the old one when it failed.
pub open spec fn settled(v: MatchView, outcome: Result<MatchView, Seq<char>>) -> MatchView {
    match outcome {
        Ok(w) => w,
        Err(_) => v,
    }
}

/// The state after one call.
pub open spec fn step(v: MatchView, call: MatchCall) -> MatchView {
    match call {
        MatchCall::AddPlayer(id) => settled(v, admission(v, id)),
        MatchCall::RemovePlayer(id) => removal(v, id),
        MatchCall::ApplyCommand(id, sequence, command) => settled(
            v,
            command_outcome(v, id, sequence, command),
        ),
        MatchCall::AdvanceTick(bodies) => settled(v, tick_outcome(v, bodies)),
    }
}

/// The state after the calls, in order.
pub open spec fn replay(v: MatchView, calls: Seq<MatchCall>) -> MatchView
    decreases calls.len(),
{
    if calls.len() == 0 {
        v
    } else {
        replay(step(v, calls[0]), calls.drop_first())
    }
}

/// What `add_player`, `apply_command` and `advance_tick` promise (`follows`) leaves exactly the
/// state `settled` names, so each call of them moves a match as `step` does.
pub proof fn lemma_follows_is_settled(
    r: Result<(), MatchError>,
    before: MatchView,
    after: MatchView,
    outcome: Result<MatchView, Seq<char>>,
)
    requires
        follows(r, before, after, outcome),
    ensures
        after == settled(before, outcome),
{
}

/// One call keeps a match well formed and consistent, and never moves its phase backwards.
pub proof fn lemma_step_keeps_invariant(v: MatchView, call: MatchCall)
    requires
        well_formed(v),
        consistent(v),
    ensures
        well_formed(step(v, call)),
        consistent(step(v, call)),
        phase_rank(step(v, call).phase) >= phase_rank(v.phase),
{
    match call {
        MatchCall::AddPlayer(id) => lemma_admission_keeps_invariant(v, id),
        MatchCall::RemovePlayer(id) => lemma_removal_keeps_invariant(v, id),
        MatchCall::ApplyCommand(id, sequence, command) => lemma_command_keeps_invariant(
            v,
            id,
            sequence,
            command,
        ),
        MatchCall::AdvanceTick(bodies) => {
            lemma_tick_keeps_invariant(v, bodies);
            if v.tick < u64::MAX {
                lemma_phase_moves_forward(v, bodies);
            }
        },
    }
}

/// Every state reachable from a well-formed, consistent state is well formed and consistent,
/// and no later in the lifecycle than the start is earlier.
pub proof fn lemma_replay_keeps_invariant(v: MatchView, calls: Seq<MatchCall>)
    requires
        well_formed(v),
        consistent(v),
    ensures
        well_formed(replay(v, calls)),
        consistent(replay(v, calls)),
        phase_rank(replay(v, calls).phase) >= phase_rank(v.phase),
    decreases calls.len(),
{
    if calls.len() > 0 {
        lemma_step_keeps_invariant(v, calls[0]);
        lemma_replay_keeps_invariant(step(v, calls[0]), calls.drop_first());
    }
}

/// Every match reachable from a new one by public calls is consistent: each player is coherent
/// (alive exactly when no elimination is recorded, with health while alive, eliminated players
/// at rest with none), everybody is alive in the lobby and its countdown runs exactly while two
/// or more players wait, there is no countdown after the lobby, a winner only once finished, at
/// least two players alive in combat and at most one once finished, at most as many alive as
/// admitted; and later calls never move the phase backwards.
pub proof fn lemma_reachable_matches_are_consistent(
    match_id: BattleMatchId,
    calls: Seq<MatchCall>,
    more: Seq<MatchCall>,
)
    ensures
        well_formed(replay(fresh_match(match_id), calls)),
        consistent(replay(fresh_match(match_id), calls)),
        alive_ids(replay(fresh_match(match_id), calls).players).len() <= replay(
            fresh_match(match_id),
            calls,
        ).players.len(),
        phase_rank(replay(replay(fresh_match(match_id), calls), more).phase) >= phase_rank(
            replay(fresh_match(match_id), calls).phase,
        ),
{
    lemma_fresh_match_consistent(match_id);
    lemma_replay_keeps_invariant(fresh_match(match_id), calls);
    let v = replay(fresh_match(match_id), calls);
    lemma_alive_count_bounded(v.players);
    lemma_replay_keeps_invariant(v, more);
}

/// Matches are deterministic: two matches with the same id given the same calls end in the same
/// state, and every canonical snapshot of the two agrees field by field and encodes to the same
/// bytes. No clock, randomness or iteration order enters a match.
pub proof fn lemma_same_calls_same_match(
    match_id: BattleMatchId,
    calls: Seq<MatchCall>,
    s1: CanonicalMatchSnapshot,
    s2: CanonicalMatchSnapshot,
)
    requires
        is_canonical_snapshot_of(s1, replay(fresh_match(match_id), calls)),
        is_canonical_snapshot_of(s2, replay(fresh_match(match_id), calls)),
    ensures
        s1.schema_version == s2.schema_version && s1.ruleset_revision == s2.ruleset_revision
            && s1.match_id == s2.match_id && s1.tick == s2.tick && s1.phase == s2.phase
            && s1.phase_started_tick == s2.phase_started_tick && s1.lobby_ready_tick
            == s2.lobby_ready_tick && s1.storm == s2.storm && s1.winner == s2.winner
            && s1.players@ == s2.players@,
        canonical_snapshot_bytes(header_of(replay(fresh_match(match_id), calls)), s1.players@)
            == canonical_snapshot_bytes(header_of(replay(fresh_match(match_id), calls)), s2.players@),
{
}

} // verus!