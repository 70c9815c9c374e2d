//! The byte-level face a session runtime sees of one match: decoded commands in, encoded
//! snapshots out, errors as messages; plus the naming and checking of a hosted match set.
use vstd::prelude::*;
use vstd::string::StringExecFns;
use crate::match_types::{
    BattleMatchId, MatchError, PlayerId, MAX_PLAYERS_PER_MATCH, TICK_HZ,
};
use crate::protocol::{
    canonical_snapshot_bytes, command_decoding, decode_command, encode_canonical_snapshot,
    encode_snapshot, player_snapshot_bytes, CommonHeader,
};
use crate::rules::{
    admission, command_outcome, fresh_match, has_player, index_of, removal, storm_of, tick_outcome,
    visible_players, BodyState, MatchView,
};
use crate::simulation::BattleRoyaleMatch;

verus! {

/// A snapshot as handed to the session runtime: the tick it describes and its wire bytes.
#[derive(Clone, Debug, PartialEq, Eq)]
pub struct EncodedSnapshot {
    pub tick: u64,
    pub payload: Vec<u8>,
}

/// The header both snapshot kinds carry for a match state.
pub open spec fn header_of(v: MatchView) -> CommonHeader {
    CommonHeader {
        schema_version: crate::match_types::SNAPSHOT_SCHEMA_VERSION,
        ruleset_revision: crate::match_types::RULESET_REVISION,
        match_id: v.match_id,
        tick: v.tick,
        phase: v.phase,
        phase_started_tick: v.phase_started_tick,
        lobby_ready_tick: v.lobby_ready_tick,
        storm: storm_of(v),
        winner: v.winner,
    }
}

/// The operation ended as `outcome` says, errors given by their message.
pub open spec fn reported(r: Result<(), String>, before: MatchView, after: MatchView, outcome: Result<MatchView, Seq<char>>) -> bool {
    match outcome {
        Ok(v) => r is Ok && after == v,
        Err(text) => r is Err && r->Err_0@ == text && after == before,
    }
}

fn report(r: Result<(), MatchError>) -> (out: Result<(), String>)
    ensures
        r is Ok <==> out is Ok,
        r is Err ==> out->Err_0@ == r->Err_0.text(),
{
    match r {
        Ok(()) => Ok(()),
        Err(e) => Err(String::from_str(e.message())),
    }
}

/// One hosted match.
pub struct BattleRoyaleGameServerAdapter {
    simulation: BattleRoyaleMatch,
}

impl BattleRoyaleGameServerAdapter {
    /// The match this adapter hosts.
    pub closed spec fn hosted(&self) -> BattleRoyaleMatch {
        self.simulation
    }

    pub open spec fn wf(&self) -> bool {
        self.hosted().wf()
    }

    pub fn new(match_id: BattleMatchId) -> (a: Self)
        ensures
            a.wf(),
            a.hosted()@ == fresh_match(match_id),
    {
        let simulation = BattleRoyaleMatch::new(match_id);
        BattleRoyaleGameServerAdapter { simulation }
    }

    pub fn simulation(&self) -> (m: &BattleRoyaleMatch)
        ensures
            *m == self.hosted(),
    {
        &self.simulation
    }

    pub fn simulation_mut(&mut self) -> (m: &mut BattleRoyaleMatch)
        ensures
            *m == old(self).hosted(),
            final(self).hosted() == *final(m),
    {
        &mut self.simulation
    }

    pub fn into_simulation(self) -> (m: BattleRoyaleMatch)
        ensures
            m == self.hosted(),
    {
        self.simulation
    }

    pub fn tick_hz(&self) -> (hz: u16)
        ensures
            hz == TICK_HZ,
    {
        TICK_HZ
    }

    pub fn max_players(&self) -> (n: usize)
        ensures
            n == MAX_PLAYERS_PER_MATCH,
    {
        MAX_PLAYERS_PER_MATCH
    }

    pub fn current_tick(&self) -> (tick: u64)
        ensures
            tick == self.hosted()@.tick,
    {
        self.simulation.current_tick()
    }

    pub fn add_player(&mut self, player_id: PlayerId) -> (r: Result<(), String>)
        requires
            old(self).wf(),
        ensures
            final(self).wf(),
            reported(r, old(self).hosted()@, final(self).hosted()@, admission(old(self).hosted()@, player_id)),
    {
        report(self.simulation.add_player(player_id))
    }

    pub fn remove_player(&mut self, player_id: PlayerId) -> (removed: bool)
        requires
            old(self).wf(),
        ensures
            final(self).wf(),
            removed == has_player(old(self).hosted()@.players, player_id),
            final(self).hosted()@ == removal(old(self).hosted()@, player_id),
    {
        self.simulation.remove_player(player_id)
    }

    /// Decode a command payload and apply it under the given sequence.
    pub fn apply_command(&mut self, player_id: PlayerId, sequence: u32, payload: &[u8]) -> (r: Result<(), String>)
        requires
            old(self).wf(),
        ensures
            final(self).wf(),
            reported(
                r,
                old(self).hosted()@,
                final(self).hosted()@,
                match command_decoding(payload@) {
                    Ok(command) => command_outcome(old(self).hosted()@, player_id, sequence, command),
                    Err(text) => Err(text),
                },
            ),
    {
        let command = match decode_command(payload) {
            Ok(command) => command,
            Err(e) => {
                return Err(String::from_str(e.message()));
            },
        };
        report(self.simulation.apply_command(player_id, sequence, command))
    }

    pub fn advance_tick(&mut self, bodies: &[BodyState]) -> (r: Result<(), String>)
        requires
            old(self).wf(),
        ensures
            final(self).wf(),
            reported(r, old(self).hosted()@, final(self).hosted()@, tick_outcome(old(self).hosted()@, bodies@)),
    {
        report(self.simulation.advance_tick(bodies))
    }

    /// The canonical snapshot, encoded.
    pub fn snapshot(&self) -> (s: EncodedSnapshot)
        ensures
            s.tick == self.hosted()@.tick,
            s.payload@ == canonical_snapshot_bytes(header_of(self.hosted()@), self.hosted()@.players),
    {
        let snapshot = self.simulation.snapshot();
        let payload = encode_canonical_snapshot(&snapshot);
        EncodedSnapshot { tick: snapshot.tick, payload }
    }

    /// One player's projection, encoded.
    pub fn snapshot_for(&self, player_id: PlayerId) -> (r: Result<EncodedSnapshot, String>)
        requires
            self.wf(),
        ensures
            r is Ok <==> has_player(self.hosted()@.players, player_id),
            !has_player(self.hosted()@.players, player_id) ==> r->Err_0@ == "unknown player"@,
            r is Ok ==> ({
                let v = self.hosted()@;
                let viewer = v.players[index_of(v.players, player_id)];
                &&& r->Ok_0.tick == v.tick
                &&& r->Ok_0.payload@ == player_snapshot_bytes(
                    header_of(v),
                    viewer.last_sequence,
                    visible_players(v.players, viewer),
                )
            }),
    {
        match self.simulation.snapshot_for_player(player_id) {
            Ok(snapshot) => {
                let payload = encode_snapshot(&snapshot);
                Ok(EncodedSnapshot { tick: snapshot.tick, payload })
            },
            Err(e) => Err(String::from_str(e.message())),
        }
    }
}

} // verus!
