//! Properties that hold of every match, proved over the rules.
use vstd::prelude::*;
use vstd::arithmetic::div_mod::lemma_div_is_ordered;
use vstd::set_lib::{lemma_int_range, lemma_len_subset, set_int_range};
use crate::match_types::{
    phase_rank, CanonicalPlayerSnapshot, MatchCommand, MatchPhase, PlayerId,
    FINAL_STORM_RADIUS_UNITS, INITIAL_STORM_RADIUS_UNITS, INTEREST_RADIUS_UNITS,
    MAX_PLAYERS_PER_MATCH, STORM_DELAY_TICKS, STORM_SHRINK_DURATION_TICKS,
};
use crate::rules::{
    advanced, alive_ids, free_slot, lemma_first_free_slot, moved_player, movement_applied,
    phase_step, player_ok, projected, slot_used, storm_applied, storm_damaged, storm_of,
    storm_radius, storm_elapsed, visible_players, well_formed, BodyState, MatchView,
    body_for, command_outcome, storm_center, tick_outcome,
};
use crate::simulation::lemma_index_of_unique;

verus! {

/// The safe zone never grows: its radius starts at the initial radius and shrinks, never below
/// the final radius, as combat goes on.
pub proof fn lemma_storm_radius_shrinks_monotonically(earlier: int, later: int)
    requires
        0 <= earlier <= later,
    ensures
        FINAL_STORM_RADIUS_UNITS <= storm_radius(later) <= storm_radius(earlier)
            <= INITIAL_STORM_RADIUS_UNITS,
{
    let s1: int = if earlier <= 90 { 0 } else if earlier - 90 <= 900 { earlier - 90 } else { 900 };
    let s2: int = if later <= 90 { 0 } else if later - 90 <= 900 { later - 90 } else { 900 };
    assert(s1 <= s2);
    lemma_div_is_ordered(48_000 * s1, 48_000 * s2, 900);
    lemma_div_is_ordered(48_000 * s2, 48_000int * 900, 900);
    lemma_div_is_ordered(0, 48_000 * s1, 900);
    assert(48_000int * 900 / 900 == 48_000) by (nonlinear_arith);
    assert(0int / 900 == 0);
    if earlier <= 90 {
        assert(storm_radius(earlier) == INITIAL_STORM_RADIUS_UNITS);
    } else {
        assert(storm_radius(earlier) == INITIAL_STORM_RADIUS_UNITS - (48_000 * s1) / 900);
    }
    if later <= 90 {
        assert(storm_radius(later) == INITIAL_STORM_RADIUS_UNITS);
    } else {
        assert(storm_radius(later) == INITIAL_STORM_RADIUS_UNITS - (48_000 * s2) / 900);
    }
}

/// The safe zone never grows from one tick to the next, and stays between the final and the
/// initial radius.
pub proof fn lemma_safe_zone_never_grows(v: MatchView, bodies: Seq<BodyState>)
    requires
        well_formed(v),
        v.tick < u64::MAX,
    ensures
        storm_of(advanced(v, bodies)).radius <= storm_of(v).radius,
        FINAL_STORM_RADIUS_UNITS <= storm_of(advanced(v, bodies)).radius <= INITIAL_STORM_RADIUS_UNITS,
{
    let w = advanced(v, bodies);
    lemma_storm_radius_shrinks_monotonically(storm_elapsed(v), storm_elapsed(w));
    lemma_storm_radius_shrinks_monotonically(0, storm_elapsed(v));
    lemma_storm_radius_shrinks_monotonically(0, storm_elapsed(w));
    assert(storm_radius(0) == INITIAL_STORM_RADIUS_UNITS);
}

/// Once finished, a match only counts ticks.
pub proof fn lemma_finished_is_terminal(v: MatchView, bodies: Seq<BodyState>)
    requires
        v.phase == MatchPhase::Finished,
        v.tick < u64::MAX,
    ensures
        advanced(v, bodies) == (MatchView { tick: (v.tick + 1) as u64, ..v }),
{
}

/// A tick moves the lifecycle forward by at most one step at a time:
/// Waiting stays or drops, Drop stays or turns into combat (which may be decided at once),
/// Combat stays or finishes, Finished stays.
pub proof fn lemma_phase_moves_forward(v: MatchView, bodies: Seq<BodyState>)
    requires
        v.tick < u64::MAX,
    ensures
        phase_rank(advanced(v, bodies).phase) >= phase_rank(v.phase),
        v.phase == MatchPhase::Waiting ==> advanced(v, bodies).phase == MatchPhase::Waiting
            || advanced(v, bodies).phase == MatchPhase::Drop,
        v.phase == MatchPhase::Combat ==> advanced(v, bodies).phase == MatchPhase::Combat
            || advanced(v, bodies).phase == MatchPhase::Finished,
        v.phase == MatchPhase::Finished ==> advanced(v, bodies).phase == MatchPhase::Finished,
{
}

/// A tick keeps the roster: same players, same ids and spawn slots, in the same order; an
/// eliminated player is left exactly as it was, and nobody comes back to life.
pub proof fn lemma_roster_kept_and_eliminations_final(v: MatchView, bodies: Seq<BodyState>)
    requires
        v.tick < u64::MAX,
    ensures
        advanced(v, bodies).players.len() == v.players.len(),
        forall|i: int|
            0 <= i < v.players.len() ==> (#[trigger] advanced(v, bodies).players[i]).player_id
                == v.players[i].player_id && advanced(v, bodies).players[i].spawn_slot
                == v.players[i].spawn_slot,
        forall|i: int|
            0 <= i < v.players.len() && !v.players[i].alive ==> #[trigger] advanced(
                v,
                bodies,
            ).players[i] == v.players[i],
{
    let m = movement_applied(v, bodies);
    let t = MatchView { tick: (v.tick + 1) as u64, ..m };
    assert forall|i: int| 0 <= i < v.players.len() implies #[trigger] m.players[i] == (if v.phase
        == MatchPhase::Finished {
        v.players[i]
    } else {
        moved_player(v.players[i], bodies)
    }) by {}
    if t.phase == MatchPhase::Combat {
        let s = storm_applied(t);
        assert forall|i: int| 0 <= i < v.players.len() implies #[trigger] s.players[i]
            == storm_damaged(t.players[i], storm_of(t), t.tick) by {}
    }
}

/// A tick that ends a match leaves at most one player alive, and that player, if any, is the
/// winner; a match that is in combat after a tick still has two or more players alive.
pub proof fn lemma_match_ends_with_last_player_standing(v: MatchView, bodies: Seq<BodyState>)
    requires
        v.tick < u64::MAX,
        v.phase != MatchPhase::Finished,
    ensures
        ({
            let w = advanced(v, bodies);
            let alive = alive_ids(w.players);
            &&& w.phase == MatchPhase::Finished ==> alive.len() <= 1 && w.winner == (if alive.len()
                == 1 {
                Some(alive[0])
            } else {
                None
            })
            &&& w.phase == MatchPhase::Combat ==> alive.len() >= 2
        }),
{
}

/// A waiting match below capacity always has a free spawn slot, so admission is refused only
/// for the reasons `add_player` names.
pub proof fn lemma_free_slot_below_capacity(v: MatchView)
    requires
        well_formed(v),
        v.players.len() < MAX_PLAYERS_PER_MATCH,
    ensures
        free_slot(v.players) is Some,
{
    lemma_first_free_slot(v.players, 0);
    if free_slot(v.players) is None {
        let slots = v.players.map_values(|p: CanonicalPlayerSnapshot| p.spawn_slot as int);
        slots.lemma_cardinality_of_set();
        lemma_int_range(0, 100);
        assert forall|s: int| #[trigger] set_int_range(0, 100).contains(s) implies slots.to_set().contains(s) by {
            assert(slot_used(v.players, s));
            let i = choose|i: int| 0 <= i < v.players.len() && #[trigger] v.players[i].spawn_slot == s;
            assert(slots[i] == s);
        }
        lemma_len_subset(set_int_range(0, 100), slots.to_set());
    }
}

/// A player always sees itself in its own projection.
pub proof fn lemma_viewer_sees_itself(players: Seq<CanonicalPlayerSnapshot>, i: int)
    requires
        0 <= i < players.len(),
    ensures
        visible_players(players, players[i]).contains(projected(players[i])),
    decreases players.len(),
{
    let viewer = players[i];
    let rest = players.drop_last();
    if i == players.len() - 1 {
        assert(visible_players(players, viewer).last() == projected(viewer));
    } else {
        lemma_viewer_sees_itself_in(rest, viewer, i);
        let k = choose|k: int| 0 <= k < visible_players(rest, viewer).len() && visible_players(rest, viewer)[k] == projected(viewer);
        assert(visible_players(players, viewer)[k] == projected(viewer));
    }
}

proof fn lemma_viewer_sees_itself_in(players: Seq<CanonicalPlayerSnapshot>, viewer: CanonicalPlayerSnapshot, i: int)
    requires
        0 <= i < players.len(),
        players[i] == viewer,
    ensures
        visible_players(players, viewer).contains(projected(viewer)),
    decreases players.len(),
{
    let rest = players.drop_last();
    if i == players.len() - 1 {
        assert(visible_players(players, viewer).last() == projected(viewer));
    } else {
        lemma_viewer_sees_itself_in(rest, viewer, i);
        let k = choose|k: int| 0 <= k < visible_players(rest, viewer).len() && visible_players(rest, viewer)[k] == projected(viewer);
        assert(visible_players(players, viewer)[k] == projected(viewer));
    }
}

/// A movement command is accepted only under a sequence above the player's last accepted one:
/// then that sequence becomes the player's last, the intent is set, and no other player changes.
/// A known, alive player of an unfinished match whose sequence is not above its last gets
/// "command sequence is stale".
pub proof fn lemma_command_sequences_strictly_increase(
    v: MatchView,
    id: PlayerId,
    sequence: u32,
    command: MatchCommand,
    i: int,
)
    requires
        well_formed(v),
        0 <= i < v.players.len(),
        v.players[i].player_id == id,
    ensures
        command_outcome(v, id, sequence, command) matches Ok(w) ==> {
            &&& sequence > v.players[i].last_sequence
            &&& w.players.len() == v.players.len()
            &&& w.players[i].last_sequence == sequence
            &&& w.players[i].movement_x == command->x && w.players[i].movement_z == command->z
            &&& forall|j: int| 0 <= j < v.players.len() && j != i ==> w.players[j] == v.players[j]
            &&& forall|j: int|
                0 <= j < v.players.len() ==> w.players[j].last_sequence >= v.players[j].last_sequence
        },
        v.phase != MatchPhase::Finished && v.players[i].alive && sequence
            <= v.players[i].last_sequence ==> command_outcome(v, id, sequence, command) == Err::<
            MatchView,
            Seq<char>,
        >("command sequence is stale"@),
{
    lemma_index_of_unique(v.players, i);
}

/// The safe zone in combat and after it: `e` combat ticks after combat began, the radius is
/// the initial radius less the whole shrink times the share of the shrink duration that has
/// passed after the delay, in integer division; damage is on once the delay has passed; the
/// radius is exactly the final radius once delay and shrink are over. Combat time is counted
/// from the start of the current phase; a finished match keeps the zone of its last combat tick.
pub proof fn lemma_storm_schedule(v: MatchView)
    requires
        well_formed(v),
        v.phase == MatchPhase::Combat || v.phase == MatchPhase::Finished,
    ensures
        ({
            let e: int = if v.phase == MatchPhase::Combat {
                v.tick - v.phase_started_tick
            } else {
                v.phase_started_tick - v.combat_started_tick
            };
            let shrunk: int = if e <= STORM_DELAY_TICKS {
                0
            } else if e - STORM_DELAY_TICKS >= STORM_SHRINK_DURATION_TICKS {
                STORM_SHRINK_DURATION_TICKS as int
            } else {
                e - STORM_DELAY_TICKS
            };
            &&& storm_of(v).radius == INITIAL_STORM_RADIUS_UNITS - (INITIAL_STORM_RADIUS_UNITS
                - FINAL_STORM_RADIUS_UNITS) * shrunk / (STORM_SHRINK_DURATION_TICKS as int)
            &&& storm_of(v).damage_active == (e > STORM_DELAY_TICKS)
            &&& e >= STORM_DELAY_TICKS + STORM_SHRINK_DURATION_TICKS ==> storm_of(v).radius
                == FINAL_STORM_RADIUS_UNITS
            &&& storm_of(v).center == storm_center(v.match_id)
        }),
{
    let e = storm_elapsed(v);
    lemma_storm_radius_shrinks_monotonically(0, e);
    assert(48_000int * 900 / 900 == 48_000) by (nonlinear_arith);
}

/// The body reported at `j` is the first one for its player.
proof fn lemma_first_body(bodies: Seq<BodyState>, id: PlayerId, j: int)
    requires
        0 <= j < bodies.len(),
        bodies[j].player_id == id,
        forall|l: int| 0 <= l < j ==> bodies[l].player_id != id,
    ensures
        body_for(bodies, id) == Some(bodies[j]),
    decreases j,
{
    if j > 0 {
        let rest = bodies.drop_first();
        assert forall|l: int| 0 <= l < j - 1 implies rest[l].player_id != id by {
            assert(rest[l] == bodies[l + 1]);
        }
        assert(bodies[0].player_id != id);
        lemma_first_body(rest, id, j - 1);
    }
}

/// Movement comes from the physics step in every phase but the last: after a successful tick of
/// an unfinished match, each player alive before it stands where the first body reported for it
/// stands, and keeps that body's velocity unless the tick eliminated it. A finished match keeps
/// every position and velocity whatever bodies it is handed.
pub proof fn lemma_tick_moves_players_to_their_bodies(v: MatchView, bodies: Seq<BodyState>, i: int, j: int)
    requires
        0 <= i < v.players.len(),
        0 <= j < bodies.len(),
        bodies[j].player_id == v.players[i].player_id,
        forall|l: int| 0 <= l < j ==> bodies[l].player_id != v.players[i].player_id,
    ensures
        tick_outcome(v, bodies) matches Ok(w) ==> {
            &&& w.players.len() == v.players.len()
            &&& v.phase != MatchPhase::Finished && v.players[i].alive ==> w.players[i].position
                == bodies[j].position && (w.players[i].alive ==> w.players[i].velocity
                == bodies[j].velocity)
            &&& v.phase == MatchPhase::Finished ==> w.players[i].position == v.players[i].position
                && w.players[i].velocity == v.players[i].velocity
        },
{
    if v.tick < u64::MAX {
        lemma_first_body(bodies, v.players[i].player_id, j);
        let m = movement_applied(v, bodies);
        let t = MatchView { tick: (v.tick + 1) as u64, ..m };
        assert(m.players.len() == v.players.len());
        assert(m.players[i] == (if v.phase == MatchPhase::Finished {
            v.players[i]
        } else {
            moved_player(v.players[i], bodies)
        }));
        if t.phase == MatchPhase::Combat {
            let s = storm_applied(t);
            assert(s.players[i] == storm_damaged(t.players[i], storm_of(t), t.tick));
        }
    }
}

/// Within interest range of the viewer on the x/z plane (squared distance at most the squared
/// interest radius), alive or not.
pub open spec fn in_range_of(viewer: CanonicalPlayerSnapshot, p: CanonicalPlayerSnapshot) -> bool {
    (p.position[0] - viewer.position[0]) * (p.position[0] - viewer.position[0]) + (p.position[2]
        - viewer.position[2]) * (p.position[2] - viewer.position[2]) <= INTEREST_RADIUS_UNITS
        * INTEREST_RADIUS_UNITS
}

proof fn lemma_visible_members(players: Seq<CanonicalPlayerSnapshot>, viewer: CanonicalPlayerSnapshot)
    ensures
        forall|k: int|
            #![trigger visible_players(players, viewer)[k]]
            0 <= k < visible_players(players, viewer).len() ==> exists|i: int|
                0 <= i < players.len() && visible_players(players, viewer)[k] == projected(
                    #[trigger] players[i],
                ) && (players[i].player_id == viewer.player_id || in_range_of(viewer, players[i])),
        forall|i: int|
            0 <= i < players.len() && ((#[trigger] players[i]).player_id == viewer.player_id
                || in_range_of(viewer, players[i])) ==> visible_players(players, viewer).contains(
                projected(players[i]),
            ),
    decreases players.len(),
{
    if players.len() > 0 {
        let rest = players.drop_last();
        let n = players.len() - 1;
        lemma_visible_members(rest, viewer);
        let vis = visible_players(players, viewer);
        let rv = visible_players(rest, viewer);
        assert forall|k: int| #![trigger vis[k]] 0 <= k < vis.len() implies exists|i: int|
            0 <= i < players.len() && vis[k] == projected(#[trigger] players[i]) && (
            players[i].player_id == viewer.player_id || in_range_of(viewer, players[i])) by {
            if k < rv.len() {
                assert(vis[k] == rv[k]);
                let i = choose|i: int|
                    0 <= i < rest.len() && rv[k] == projected(#[trigger] rest[i]) && (
                    rest[i].player_id == viewer.player_id || in_range_of(viewer, rest[i]));
                assert(players[i] == rest[i]);
            } else {
                assert(vis[k] == projected(players[n]));
            }
        }
        assert forall|i: int|
            0 <= i < players.len() && ((#[trigger] players[i]).player_id == viewer.player_id
                || in_range_of(viewer, players[i])) implies vis.contains(projected(players[i])) by {
            if i < n {
                assert(rest[i] == players[i]);
                let k = choose|k: int| 0 <= k < rv.len() && rv[k] == projected(players[i]);
                assert(vis[k] == rv[k]);
            } else {
                assert(vis[vis.len() - 1] == projected(players[n]));
            }
        }
    }
}

/// A player's projection lists the viewer itself and every other player within interest
/// range, alive or eliminated, and nobody else.
pub proof fn lemma_projection_lists_exactly_the_players_in_range(v: MatchView, viewer: int)
    requires
        well_formed(v),
        0 <= viewer < v.players.len(),
    ensures
        forall|i: int|
            0 <= i < v.players.len() ==> (visible_players(v.players, v.players[viewer]).contains(
                projected(#[trigger] v.players[i]),
            ) <==> (i == viewer || in_range_of(v.players[viewer], v.players[i]))),
        forall|k: int|
            #![trigger visible_players(v.players, v.players[viewer])[k]]
            0 <= k < visible_players(v.players, v.players[viewer]).len() ==> exists|i: int|
                0 <= i < v.players.len() && visible_players(v.players, v.players[viewer])[k]
                    == projected(#[trigger] v.players[i]),
{
    let w = v.players[viewer];
    let vis = visible_players(v.players, w);
    lemma_visible_members(v.players, w);
    assert forall|i: int| 0 <= i < v.players.len() implies (vis.contains(
        projected(#[trigger] v.players[i]),
    ) <==> (i == viewer || in_range_of(w, v.players[i]))) by {
        if vis.contains(projected(v.players[i])) {
            let k = choose|k: int| 0 <= k < vis.len() && vis[k] == projected(v.players[i]);
            let j = choose|j: int|
                0 <= j < v.players.len() && vis[k] == projected(#[trigger] v.players[j]) && (
                v.players[j].player_id == w.player_id || in_range_of(w, v.players[j]));
            assert(v.players[j].player_id == v.players[i].player_id);
            if i != j {
                if i < j {
                    assert(v.players[i].player_id < v.players[j].player_id);
                } else {
                    assert(v.players[j].player_id < v.players[i].player_id);
                }
            }
            if v.players[j].player_id == w.player_id && j != viewer {
                if j < viewer {
                    assert(v.players[j].player_id < v.players[viewer].player_id);
                } else {
                    assert(v.players[viewer].player_id < v.players[j].player_id);
                }
            }
        }
    }
}

} // verus!