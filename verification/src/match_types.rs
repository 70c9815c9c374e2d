use vstd::prelude::*;
use vstd::string::StringExecFns;

verus! {

/// Identifier of a player inside one match.
pub type PlayerId = u32;

pub const TICK_HZ: u16 = 30;
pub const MAX_PLAYERS_PER_MATCH: usize = 100;
pub const MIN_PLAYERS_TO_START: usize = 2;
pub const LOBBY_COUNTDOWN_TICKS: u64 = 60;
pub const DROP_DURATION_TICKS: u64 = 90;
pub const STORM_DELAY_TICKS: u64 = 90;
pub const STORM_SHRINK_DURATION_TICKS: u64 = 900;
pub const INITIAL_STORM_RADIUS_UNITS: i32 = 50_000;
pub const FINAL_STORM_RADIUS_UNITS: i32 = 2_000;
pub const STORM_DAMAGE_PER_TICK: u16 = 2;
pub const MAX_HEALTH: u16 = 100;
pub const SNAPSHOT_SCHEMA_VERSION: u16 = 1;
pub const RULESET_REVISION: u64 = 1;
pub const INTEREST_RADIUS_UNITS: i32 = 20_000;

/// Identity of one match; the storm center is derived from it.
#[derive(Clone, Copy, Debug, PartialEq, Eq, Hash, PartialOrd, Ord)]
pub struct BattleMatchId(u64);

impl BattleMatchId {
    /// The number this identity wraps.
    pub closed spec fn value(self) -> u64 {
        self.0
    }

    /// The identity wrapping `value`.
    pub closed spec fn spec_new(value: u64) -> Self {
        BattleMatchId(value)
    }

    pub fn new(value: u64) -> (id: Self)
        ensures
            id.value() == value,
            id == Self::spec_new(value),
    {
        BattleMatchId(value)
    }

    pub fn get(self) -> (value: u64)
        ensures
            value == self.value(),
    {
        self.0
    }

    /// Two identities that wrap the same number are the same identity.
    pub proof fn lemma_value_determines(a: Self, b: Self)
        requires
            a.value() == b.value(),
        ensures
            a == b,
    {
    }

    /// Wrapping and unwrapping are inverse.
    pub proof fn lemma_spec_new(value: u64, id: Self)
        ensures
            Self::spec_new(value).value() == value,
            Self::spec_new(id.value()) == id,
    {
    }
}

/// Lifecycle of a match: `Waiting -> Drop -> Combat -> Finished`.
#[derive(Clone, Copy, Debug, PartialEq, Eq, Structural)]
pub enum MatchPhase {
    Waiting,
    Drop,
    Combat,
    Finished,
}

/// Position of a phase in the lifecycle order.
pub open spec fn phase_rank(phase: MatchPhase) -> int {
    match phase {
        MatchPhase::Waiting => 0,
        MatchPhase::Drop => 1,
        MatchPhase::Combat => 2,
        MatchPhase::Finished => 3,
    }
}

#[derive(Clone, Copy, Debug, PartialEq, Eq, Structural)]
pub enum EliminationCause {
    Storm,
    SessionExpired,
}

#[derive(Clone, Copy, Debug, PartialEq, Eq, Structural)]
pub enum MatchCommand {
    SetMovement { x: i8, z: i8 },
}

/// The safe zone: center `[x, z]`, radius and whether it damages players outside it.
#[derive(Clone, Copy, Debug, PartialEq, Eq)]
pub struct StormSnapshot {
    pub center: [i32; 2],
    pub radius: i32,
    pub damage_active: bool,
}

/// What any player may see of another player.
#[derive(Clone, Copy, Debug, PartialEq, Eq)]
pub struct PlayerSnapshot {
    pub player_id: PlayerId,
    pub position: [i32; 3],
    pub velocity: [i32; 3],
    pub health: u16,
    pub alive: bool,
    pub elimination_tick: Option<u64>,
    pub elimination_cause: Option<EliminationCause>,
}

/// The complete authoritative state of one player, private sequencing included.
#[derive(Clone, Copy, Debug, PartialEq, Eq)]
pub struct CanonicalPlayerSnapshot {
    pub player_id: PlayerId,
    pub position: [i32; 3],
    pub velocity: [i32; 3],
    pub movement_x: i8,
    pub movement_z: i8,
    pub last_sequence: u32,
    pub spawn_slot: u16,
    pub health: u16,
    pub alive: bool,
    pub elimination_tick: Option<u64>,
    pub elimination_cause: Option<EliminationCause>,
}

/// A player-scoped projection of the match.
#[derive(Clone, Debug, PartialEq, Eq)]
pub struct MatchSnapshot {
    pub schema_version: u16,
    pub ruleset_revision: u64,
    pub match_id: BattleMatchId,
    pub tick: u64,
    pub phase: MatchPhase,
    pub phase_started_tick: u64,
    pub lobby_ready_tick: Option<u64>,
    pub storm: StormSnapshot,
    pub winner: Option<PlayerId>,
    pub acknowledged_sequence: u32,
    pub players: Vec<PlayerSnapshot>,
}

/// The complete match state used for replay and recovery.
#[derive(Clone, Debug, PartialEq, Eq)]
pub struct CanonicalMatchSnapshot {
    pub schema_version: u16,
    pub ruleset_revision: u64,
    pub match_id: BattleMatchId,
    pub tick: u64,
    pub phase: MatchPhase,
    pub phase_started_tick: u64,
    pub lobby_ready_tick: Option<u64>,
    pub storm: StormSnapshot,
    pub winner: Option<PlayerId>,
    pub players: Vec<CanonicalPlayerSnapshot>,
}

/// A rejected match operation, described by its message.
#[derive(Clone, Debug, PartialEq, Eq)]
pub struct MatchError {
    message: String,
}

/// The operation was refused with exactly this message.
pub open spec fn fails_with<T>(r: Result<T, MatchError>, text: Seq<char>) -> bool {
    match r {
        Err(e) => e.text() == text,
        Ok(_) => false,
    }
}

impl MatchError {
    /// The text of the message.
    pub closed spec fn text(&self) -> Seq<char> {
        self.message@
    }

    pub fn new(message: &str) -> (error: Self)
        ensures
            error.text() == message@,
    {
        MatchError { message: String::from_str(message) }
    }

    pub fn message(&self) -> (text: &str)
        ensures
            text@ == self.text(),
    {
        self.message.as_str()
    }
}

/// A physics world failure, with the world's own description of it.
pub fn physics_error(detail: &str) -> (error: MatchError)
    ensures
        error.text() == "physics error: "@ + detail@,
{
    let mut message = String::from_str("physics error: ");
    message.append(detail);
    MatchError { message }
}

} // verus!
