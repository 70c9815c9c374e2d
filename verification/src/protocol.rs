//! The battle royale wire format: movement commands, canonical snapshots and player-scoped
//! snapshots. Every decoder accepts exactly the encodings its encoder produces.
use vstd::prelude::*;
use vstd::string::StringExecFns;
use crate::match_types::{
    BattleMatchId, CanonicalMatchSnapshot, CanonicalPlayerSnapshot, EliminationCause,
    MatchCommand, MatchPhase, MatchSnapshot, PlayerSnapshot, StormSnapshot, MAX_PLAYERS_PER_MATCH,
};
use crate::wire::{
    bool_byte, cause_byte, encode_cause, encode_phase, le16, le32, le64, le_i32,
    lemma_bool_exact, lemma_cause_exact, lemma_i32_exact, lemma_i8_exact, lemma_opt_u32_exact,
    lemma_opt_u64_exact, lemma_phase_exact, lemma_read_bool, lemma_read_cause, lemma_read_i32,
    lemma_read_i8, lemma_read_opt_u32, lemma_read_opt_u64, lemma_read_phase, lemma_read_u16,
    lemma_read_u32, lemma_read_u64, lemma_read_vec3, lemma_region_join, lemma_region_split,
    lemma_u16_exact, lemma_u32_exact, lemma_u64_exact, lemma_vec3_exact, opt_u32_bytes,
    opt_u64_bytes, p_bool, p_cause, p_i32, p_i8, p_opt_u32, p_opt_u64, p_phase, p_u16, p_u32,
    p_u64, p_vec3, phase_byte, read_as, region, take, vec3_bytes, write_i32, write_option_u32,
    write_option_u64, write_u16, write_u32, write_u64, write_vec3, Cursor, DecodeFailure, Parsed,
    cut_reads, lemma_cut_bool, lemma_cut_cause, lemma_cut_i32, lemma_cut_i8, lemma_cut_opt_u32,
    lemma_cut_opt_u64, lemma_cut_phase, lemma_cut_u16, lemma_cut_u32, lemma_cut_u64,
    lemma_cut_vec3,
};

verus! {

pub const PROTOCOL_VERSION: u16 = 1;
pub const COMMAND_BYTES: usize = 5;
pub const COMMAND_KIND_MOVEMENT: u8 = 1;

/// A refused payload, described by its message.
#[derive(Clone, Debug, PartialEq, Eq)]
pub struct ProtocolError {
    message: String,
}

/// The payload was refused with exactly this message.
pub open spec fn rejects_with<T>(r: Result<T, ProtocolError>, text: Seq<char>) -> bool {
    match r {
        Err(e) => e.text() == text,
        Ok(_) => false,
    }
}

impl ProtocolError {
    /// The text of the message.
    pub closed spec fn text(&self) -> Seq<char> {
        self.message@
    }

    pub fn new(message: &str) -> (error: Self)
        ensures
            error.text() == message@,
    {
        ProtocolError { message: String::from_str(message) }
    }

    pub fn message(&self) -> (text: &str)
        ensures
            text@ == self.text(),
    {
        self.message.as_str()
    }
}

/// The message a snapshot decoder gives for each failure.
pub open spec fn failure_text(f: DecodeFailure) -> Seq<char> {
    match f {
        DecodeFailure::OffsetOverflow => "snapshot offset overflow"@,
        DecodeFailure::Truncated => "truncated snapshot"@,
        DecodeFailure::BadMagic => "invalid snapshot magic"@,
        DecodeFailure::UnsupportedVersion => "unsupported snapshot protocol version"@,
        DecodeFailure::InvalidPhase => "invalid match phase"@,
        DecodeFailure::InvalidBool => "invalid boolean value"@,
        DecodeFailure::InvalidOptionU64 => "invalid optional u64 tag"@,
        DecodeFailure::InvalidOptionU32 => "invalid optional u32 tag"@,
        DecodeFailure::InvalidCause => "invalid elimination cause"@,
        DecodeFailure::TooManyPlayers => "snapshot player count exceeds match capacity"@,
        DecodeFailure::TrailingBytes => "snapshot has trailing bytes"@,
    }
}

fn failure_error(f: DecodeFailure) -> (e: ProtocolError)
    ensures
        e.text() == failure_text(f),
{
    match f {
        DecodeFailure::OffsetOverflow => ProtocolError::new("snapshot offset overflow"),
        DecodeFailure::Truncated => ProtocolError::new("truncated snapshot"),
        DecodeFailure::BadMagic => ProtocolError::new("invalid snapshot magic"),
        DecodeFailure::UnsupportedVersion => ProtocolError::new("unsupported snapshot protocol version"),
        DecodeFailure::InvalidPhase => ProtocolError::new("invalid match phase"),
        DecodeFailure::InvalidBool => ProtocolError::new("invalid boolean value"),
        DecodeFailure::InvalidOptionU64 => ProtocolError::new("invalid optional u64 tag"),
        DecodeFailure::InvalidOptionU32 => ProtocolError::new("invalid optional u32 tag"),
        DecodeFailure::InvalidCause => ProtocolError::new("invalid elimination cause"),
        DecodeFailure::TooManyPlayers => ProtocolError::new(
            "snapshot player count exceeds match capacity",
        ),
        DecodeFailure::TrailingBytes => ProtocolError::new("snapshot has trailing bytes"),
    }
}

// ---------------------------------------------------------------------------------------------
// Commands

/// Protocol version, command kind, then the two movement components as bytes.
pub open spec fn command_bytes(command: MatchCommand) -> Seq<u8> {
    let MatchCommand::SetMovement { x, z } = command;
    le16(PROTOCOL_VERSION) + seq![COMMAND_KIND_MOVEMENT, x as u8, z as u8]
}

/// A command payload is accepted exactly when it has the command length, the protocol version,
/// the movement kind and components in `-1..=1`.
pub open spec fn command_decoding(b: Seq<u8>) -> Result<MatchCommand, Seq<char>> {
    if b.len() != COMMAND_BYTES {
        Err("invalid command length"@)
    } else if (b[0] as u16 | ((b[1] as u16) << 8u16)) != PROTOCOL_VERSION {
        Err("unsupported command protocol version"@)
    } else if b[2] != COMMAND_KIND_MOVEMENT {
        Err("unsupported command kind"@)
    } else if !(-1 <= (b[3] as i8) <= 1 && -1 <= (b[4] as i8) <= 1) {
        Err("movement components must be between -1 and 1"@)
    } else {
        Ok(MatchCommand::SetMovement { x: b[3] as i8, z: b[4] as i8 })
    }
}

pub fn encode_command(command: MatchCommand) -> (bytes: [u8; 5])
    ensures
        bytes@ == command_bytes(command),
{
    let MatchCommand::SetMovement { x, z } = command;
    let bytes: [u8; 5] = [
        PROTOCOL_VERSION as u8,
        (PROTOCOL_VERSION >> 8u16) as u8,
        COMMAND_KIND_MOVEMENT,
        x as u8,
        z as u8,
    ];
    assert(bytes@ =~= command_bytes(command));
    bytes
}

pub fn decode_command(payload: &[u8]) -> (r: Result<MatchCommand, ProtocolError>)
    ensures
        match command_decoding(payload@) {
            Ok(c) => r == Ok::<MatchCommand, ProtocolError>(c),
            Err(text) => rejects_with(r, text),
        },
{
    if payload.len() != COMMAND_BYTES {
        return Err(ProtocolError::new("invalid command length"));
    }
    let version: u16 = (payload[0] as u16) | ((payload[1] as u16) << 8u16);
    if version != PROTOCOL_VERSION {
        return Err(ProtocolError::new("unsupported command protocol version"));
    }
    if payload[2] != COMMAND_KIND_MOVEMENT {
        return Err(ProtocolError::new("unsupported command kind"));
    }
    let x = payload[3] as i8;
    let z = payload[4] as i8;
    if !(-1 <= x && x <= 1) || !(-1 <= z && z <= 1) {
        return Err(ProtocolError::new("movement components must be between -1 and 1"));
    }
    Ok(MatchCommand::SetMovement { x, z })
}

// ---------------------------------------------------------------------------------------------
// The header shared by both snapshot kinds

/// The fields both snapshot kinds share.
#[derive(Clone, Copy, Debug, PartialEq, Eq)]
pub struct CommonHeader {
    pub schema_version: u16,
    pub ruleset_revision: u64,
    pub match_id: BattleMatchId,
    pub tick: u64,
    pub phase: MatchPhase,
    pub phase_started_tick: u64,
    pub lobby_ready_tick: Option<u64>,
    pub storm: StormSnapshot,
    pub winner: Option<u32>,
}

pub open spec fn canonical_header(s: CanonicalMatchSnapshot) -> CommonHeader {
    CommonHeader {
        schema_version: s.schema_version,
        ruleset_revision: s.ruleset_revision,
        match_id: s.match_id,
        tick: s.tick,
        phase: s.phase,
        phase_started_tick: s.phase_started_tick,
        lobby_ready_tick: s.lobby_ready_tick,
        storm: s.storm,
        winner: s.winner,
    }
}

pub open spec fn player_view_header(s: MatchSnapshot) -> CommonHeader {
    CommonHeader {
        schema_version: s.schema_version,
        ruleset_revision: s.ruleset_revision,
        match_id: s.match_id,
        tick: s.tick,
        phase: s.phase,
        phase_started_tick: s.phase_started_tick,
        lobby_ready_tick: s.lobby_ready_tick,
        storm: s.storm,
        winner: s.winner,
    }
}

pub open spec fn ids_bytes(h: CommonHeader) -> Seq<u8> {
    le16(h.schema_version) + le64(h.ruleset_revision) + le64(h.match_id.value()) + le64(h.tick)
}

pub open spec fn state_bytes(h: CommonHeader) -> Seq<u8> {
    seq![phase_byte(h.phase)] + le64(h.phase_started_tick) + opt_u64_bytes(h.lobby_ready_tick)
}

pub open spec fn storm_bytes(s: StormSnapshot) -> Seq<u8> {
    le_i32(s.center[0]) + le_i32(s.center[1]) + le_i32(s.radius) + seq![bool_byte(s.damage_active)]
}

/// Protocol version, schema version, ruleset revision, match id, tick, phase, phase start,
/// lobby countdown start, safe zone and winner, in that order.
#[verifier::opaque]
pub open spec fn header_bytes(h: CommonHeader) -> Seq<u8> {
    le16(PROTOCOL_VERSION) + ids_bytes(h) + state_bytes(h) + storm_bytes(h.storm) + opt_u32_bytes(
        h.winner,
    )
}

pub open spec fn p_ids(b: Seq<u8>, o: int) -> Parsed<(u16, u64, u64, u64)> {
    match p_u16(b, o) {
        Ok((schema, e1)) => match p_u64(b, e1) {
            Ok((revision, e2)) => match p_u64(b, e2) {
                Ok((id, e3)) => match p_u64(b, e3) {
                    Ok((tick, e4)) => Ok(((schema, revision, id, tick), e4)),
                    Err(f) => Err(f),
                },
                Err(f) => Err(f),
            },
            Err(f) => Err(f),
        },
        Err(f) => Err(f),
    }
}

pub open spec fn p_state(b: Seq<u8>, o: int) -> Parsed<(MatchPhase, u64, Option<u64>)> {
    match p_phase(b, o) {
        Ok((phase, e1)) => match p_u64(b, e1) {
            Ok((started, e2)) => match p_opt_u64(b, e2) {
                Ok((lobby, e3)) => Ok(((phase, started, lobby), e3)),
                Err(f) => Err(f),
            },
            Err(f) => Err(f),
        },
        Err(f) => Err(f),
    }
}

pub open spec fn p_storm(b: Seq<u8>, o: int) -> Parsed<StormSnapshot> {
    match p_i32(b, o) {
        Ok((cx, e1)) => match p_i32(b, e1) {
            Ok((cz, e2)) => match p_i32(b, e2) {
                Ok((radius, e3)) => match p_bool(b, e3) {
                    Ok((damage_active, e4)) => Ok(
                        (StormSnapshot { center: [cx, cz], radius, damage_active }, e4),
                    ),
                    Err(f) => Err(f),
                },
                Err(f) => Err(f),
            },
            Err(f) => Err(f),
        },
        Err(f) => Err(f),
    }
}

#[verifier::opaque]
pub open spec fn p_header(b: Seq<u8>, o: int) -> Parsed<CommonHeader> {
    match p_u16(b, o) {
        Ok((version, e0)) => if version != PROTOCOL_VERSION {
            Err(DecodeFailure::UnsupportedVersion)
        } else {
            match p_ids(b, e0) {
                Ok(((schema, revision, id, tick), e1)) => match p_state(b, e1) {
                    Ok(((phase, started, lobby), e2)) => match p_storm(b, e2) {
                        Ok((storm, e3)) => match p_opt_u32(b, e3) {
                            Ok((winner, e4)) => Ok(
                                (
                                    CommonHeader {
                                        schema_version: schema,
                                        ruleset_revision: revision,
                                        match_id: BattleMatchId::spec_new(id),
                                        tick,
                                        phase,
                                        phase_started_tick: started,
                                        lobby_ready_tick: lobby,
                                        storm,
                                        winner,
                                    },
                                    e4,
                                ),
                            ),
                            Err(f) => Err(f),
                        },
                        Err(f) => Err(f),
                    },
                    Err(f) => Err(f),
                },
                Err(f) => Err(f),
            }
        },
        Err(f) => Err(f),
    }
}

proof fn lemma_read_ids(b: Seq<u8>, o: int, h: CommonHeader)
    requires
        region(b, o, ids_bytes(h)),
        b.len() <= usize::MAX,
    ensures
        p_ids(b, o) == Ok::<((u16, u64, u64, u64), int), DecodeFailure>(
            ((h.schema_version, h.ruleset_revision, h.match_id.value(), h.tick), o + 26),
        ),
{
    let a = le16(h.schema_version);
    let c = le64(h.ruleset_revision);
    let d = le64(h.match_id.value());
    let t = le64(h.tick);
    lemma_region_split(b, o, a + c + d, t);
    lemma_region_split(b, o, a + c, d);
    lemma_region_split(b, o, a, c);
    lemma_read_u16(b, o, h.schema_version);
    lemma_read_u64(b, o + 2, h.ruleset_revision);
    lemma_read_u64(b, o + 10, h.match_id.value());
    lemma_read_u64(b, o + 18, h.tick);
}

proof fn lemma_ids_exact(b: Seq<u8>, o: int)
    requires
        0 <= o,
    ensures
        p_ids(b, o) matches Ok(((schema, revision, id, tick), e)) ==> e == o + 26 && region(
            b,
            o,
            le16(schema) + le64(revision) + le64(id) + le64(tick),
        ),
{
    lemma_u16_exact(b, o);
    lemma_u64_exact(b, o + 2);
    lemma_u64_exact(b, o + 10);
    lemma_u64_exact(b, o + 18);
    if let Ok(((schema, revision, id, tick), e)) = p_ids(b, o) {
        lemma_region_join(b, o, le16(schema), le64(revision));
        lemma_region_join(b, o, le16(schema) + le64(revision), le64(id));
        lemma_region_join(b, o, le16(schema) + le64(revision) + le64(id), le64(tick));
    }
}

proof fn lemma_read_state(b: Seq<u8>, o: int, h: CommonHeader)
    requires
        region(b, o, state_bytes(h)),
        b.len() <= usize::MAX,
    ensures
        p_state(b, o) == Ok::<((MatchPhase, u64, Option<u64>), int), DecodeFailure>(
            ((h.phase, h.phase_started_tick, h.lobby_ready_tick), o + state_bytes(h).len()),
        ),
{
    let a = seq![phase_byte(h.phase)];
    let c = le64(h.phase_started_tick);
    let d = opt_u64_bytes(h.lobby_ready_tick);
    lemma_region_split(b, o, a + c, d);
    lemma_region_split(b, o, a, c);
    lemma_read_phase(b, o, h.phase);
    lemma_read_u64(b, o + 1, h.phase_started_tick);
    lemma_read_opt_u64(b, o + 9, h.lobby_ready_tick);
}

proof fn lemma_state_exact(b: Seq<u8>, o: int)
    requires
        0 <= o,
    ensures
        p_state(b, o) matches Ok(((phase, started, lobby), e)) ==> e == o + 9 + opt_u64_bytes(
            lobby,
        ).len() && region(
            b,
            o,
            seq![phase_byte(phase)] + le64(started) + opt_u64_bytes(lobby),
        ),
{
    lemma_phase_exact(b, o);
    lemma_u64_exact(b, o + 1);
    lemma_opt_u64_exact(b, o + 9);
    if let Ok(((phase, started, lobby), e)) = p_state(b, o) {
        lemma_region_join(b, o, seq![phase_byte(phase)], le64(started));
        lemma_region_join(b, o, seq![phase_byte(phase)] + le64(started), opt_u64_bytes(lobby));
    }
}

proof fn lemma_read_storm(b: Seq<u8>, o: int, s: StormSnapshot)
    requires
        region(b, o, storm_bytes(s)),
        b.len() <= usize::MAX,
    ensures
        p_storm(b, o) == Ok::<(StormSnapshot, int), DecodeFailure>((s, o + 13)),
{
    let a = le_i32(s.center[0]);
    let c = le_i32(s.center[1]);
    let d = le_i32(s.radius);
    let f = seq![bool_byte(s.damage_active)];
    lemma_region_split(b, o, a + c + d, f);
    lemma_region_split(b, o, a + c, d);
    lemma_region_split(b, o, a, c);
    lemma_read_i32(b, o, s.center[0]);
    lemma_read_i32(b, o + 4, s.center[1]);
    lemma_read_i32(b, o + 8, s.radius);
    lemma_read_bool(b, o + 12, s.damage_active);
    assert([s.center[0], s.center[1]] =~= s.center);
}

proof fn lemma_storm_exact(b: Seq<u8>, o: int)
    requires
        0 <= o,
    ensures
        p_storm(b, o) matches Ok((s, e)) ==> e == o + 13 && region(b, o, storm_bytes(s)),
{
    lemma_i32_exact(b, o);
    lemma_i32_exact(b, o + 4);
    lemma_i32_exact(b, o + 8);
    lemma_bool_exact(b, o + 12);
    if let Ok((s, e)) = p_storm(b, o) {
        let a = le_i32(s.center[0]);
        let c = le_i32(s.center[1]);
        let d = le_i32(s.radius);
        let f = seq![bool_byte(s.damage_active)];
        lemma_region_join(b, o, a, c);
        lemma_region_join(b, o, a + c, d);
        lemma_region_join(b, o, a + c + d, f);
    }
}

/// A region holding an encoded header reads back as that header.
proof fn lemma_read_header(b: Seq<u8>, o: int, h: CommonHeader)
    requires
        region(b, o, header_bytes(h)),
        b.len() <= usize::MAX,
    ensures
        p_header(b, o) == Ok::<(CommonHeader, int), DecodeFailure>((h, o + header_bytes(h).len())),
{
    reveal(p_header);
    reveal(header_bytes);
    let v = le16(PROTOCOL_VERSION);
    let ids = ids_bytes(h);
    let st = state_bytes(h);
    let sm = storm_bytes(h.storm);
    let w = opt_u32_bytes(h.winner);
    lemma_region_split(b, o, v + ids + st + sm, w);
    lemma_region_split(b, o, v + ids + st, sm);
    lemma_region_split(b, o, v + ids, st);
    lemma_region_split(b, o, v, ids);
    lemma_read_u16(b, o, PROTOCOL_VERSION);
    lemma_read_ids(b, o + 2, h);
    lemma_read_state(b, o + 28, h);
    lemma_read_storm(b, o + 28 + st.len(), h.storm);
    lemma_read_opt_u32(b, o + 41 + st.len(), h.winner);
    BattleMatchId::lemma_spec_new(h.match_id.value(), h.match_id);
}

/// A header is read only from a region holding exactly its encoding.
proof fn lemma_header_exact(b: Seq<u8>, o: int)
    requires
        0 <= o,
    ensures
        p_header(b, o) matches Ok((h, e)) ==> e == o + header_bytes(h).len() && region(
            b,
            o,
            header_bytes(h),
        ),
{
    reveal(p_header);
    reveal(header_bytes);
    lemma_u16_exact(b, o);
    lemma_ids_exact(b, o + 2);
    if let Ok(((schema, revision, id, tick), e1)) = p_ids(b, o + 2) {
        lemma_state_exact(b, e1);
        if let Ok(((phase, started, lobby), e2)) = p_state(b, e1) {
            lemma_storm_exact(b, e2);
            if let Ok((storm, e3)) = p_storm(b, e2) {
                lemma_opt_u32_exact(b, e3);
                if let Ok((h, e)) = p_header(b, o) {
                    BattleMatchId::lemma_spec_new(id, h.match_id);
                    assert(ids_bytes(h) == le16(schema) + le64(revision) + le64(id) + le64(tick));
                    assert(state_bytes(h) == seq![phase_byte(phase)] + le64(started) + opt_u64_bytes(lobby));
                    lemma_region_join(b, o, le16(PROTOCOL_VERSION), ids_bytes(h));
                    lemma_region_join(b, o, le16(PROTOCOL_VERSION) + ids_bytes(h), state_bytes(h));
                    lemma_region_join(
                        b,
                        o,
                        le16(PROTOCOL_VERSION) + ids_bytes(h) + state_bytes(h),
                        storm_bytes(h.storm),
                    );
                    lemma_region_join(
                        b,
                        o,
                        le16(PROTOCOL_VERSION) + ids_bytes(h) + state_bytes(h) + storm_bytes(h.storm),
                        opt_u32_bytes(h.winner),
                    );
                }
            }
        }
    }
}

fn write_common_header(bytes: &mut Vec<u8>, header: &CommonHeader)
    ensures
        final(bytes)@ == old(bytes)@ + header_bytes(*header),
{
    proof {
        reveal(p_header);
        reveal(header_bytes);
    }
    write_u16(bytes, PROTOCOL_VERSION);
    write_u16(bytes, header.schema_version);
    write_u64(bytes, header.ruleset_revision);
    write_u64(bytes, header.match_id.get());
    write_u64(bytes, header.tick);
    bytes.push(encode_phase(header.phase));
    write_u64(bytes, header.phase_started_tick);
    write_option_u64(bytes, header.lobby_ready_tick);
    write_i32(bytes, header.storm.center[0]);
    write_i32(bytes, header.storm.center[1]);
    write_i32(bytes, header.storm.radius);
    bytes.push(if header.storm.damage_active { 1u8 } else { 0u8 });
    write_option_u32(bytes, header.winner);
    assert(final(bytes)@ =~= old(bytes)@ + header_bytes(*header));
}

fn read_common_header(cursor: &mut Cursor) -> (r: Result<CommonHeader, DecodeFailure>)
    ensures
        final(cursor).bytes == old(cursor).bytes,
        read_as(r, p_header(old(cursor).bytes@, old(cursor).offset as int), final(cursor).offset),
{
    proof {
        reveal(p_header);
        reveal(header_bytes);
    }
    let protocol_version = cursor.read_u16()?;
    if protocol_version != PROTOCOL_VERSION {
        return Err(DecodeFailure::UnsupportedVersion);
    }
    let schema_version = cursor.read_u16()?;
    let ruleset_revision = cursor.read_u64()?;
    let match_id = BattleMatchId::new(cursor.read_u64()?);
    let tick = cursor.read_u64()?;
    let phase = cursor.read_phase()?;
    let phase_started_tick = cursor.read_u64()?;
    let lobby_ready_tick = cursor.read_option_u64()?;
    let cx = cursor.read_i32()?;
    let cz = cursor.read_i32()?;
    let radius = cursor.read_i32()?;
    let damage_active = cursor.read_bool()?;
    let winner = cursor.read_option_u32()?;
    Ok(
        CommonHeader {
            schema_version,
            ruleset_revision,
            match_id,
            tick,
            phase,
            phase_started_tick,
            lobby_ready_tick,
            storm: StormSnapshot { center: [cx, cz], radius, damage_active },
            winner,
        },
    )
}

// ---------------------------------------------------------------------------------------------
// Players

/// Id, position and velocity.
pub open spec fn motion_bytes(id: u32, position: [i32; 3], velocity: [i32; 3]) -> Seq<u8> {
    le32(id) + vec3_bytes(position) + vec3_bytes(velocity)
}

/// Movement intent, acknowledged sequence, spawn slot and health.
pub open spec fn intent_bytes(p: CanonicalPlayerSnapshot) -> Seq<u8> {
    seq![p.movement_x as u8] + seq![p.movement_z as u8] + le32(p.last_sequence) + le16(p.spawn_slot)
        + le16(p.health)
}

/// Alive flag, elimination tick and elimination cause.
pub open spec fn fate_bytes(alive: bool, tick: Option<u64>, cause: Option<EliminationCause>) -> Seq<u8> {
    seq![bool_byte(alive)] + opt_u64_bytes(tick) + seq![cause_byte(cause)]
}

pub open spec fn canonical_player_bytes(p: CanonicalPlayerSnapshot) -> Seq<u8> {
    motion_bytes(p.player_id, p.position, p.velocity) + intent_bytes(p) + fate_bytes(
        p.alive,
        p.elimination_tick,
        p.elimination_cause,
    )
}

pub open spec fn player_bytes(p: PlayerSnapshot) -> Seq<u8> {
    motion_bytes(p.player_id, p.position, p.velocity) + le16(p.health) + fate_bytes(
        p.alive,
        p.elimination_tick,
        p.elimination_cause,
    )
}

pub open spec fn canonical_players_bytes(ps: Seq<CanonicalPlayerSnapshot>) -> Seq<u8>
    decreases ps.len(),
{
    if ps.len() == 0 {
        Seq::empty()
    } else {
        canonical_players_bytes(ps.drop_last()) + canonical_player_bytes(ps.last())
    }
}

pub open spec fn players_bytes(ps: Seq<PlayerSnapshot>) -> Seq<u8>
    decreases ps.len(),
{
    if ps.len() == 0 {
        Seq::empty()
    } else {
        players_bytes(ps.drop_last()) + player_bytes(ps.last())
    }
}

pub open spec fn p_motion(b: Seq<u8>, o: int) -> Parsed<(u32, [i32; 3], [i32; 3])> {
    match p_u32(b, o) {
        Ok((id, e1)) => match p_vec3(b, e1) {
            Ok((position, e2)) => match p_vec3(b, e2) {
                Ok((velocity, e3)) => Ok(((id, position, velocity), e3)),
                Err(f) => Err(f),
            },
            Err(f) => Err(f),
        },
        Err(f) => Err(f),
    }
}

pub open spec fn p_intent(b: Seq<u8>, o: int) -> Parsed<(i8, i8, u32, u16, u16)> {
    match p_i8(b, o) {
        Ok((mx, e1)) => match p_i8(b, e1) {
            Ok((mz, e2)) => match p_u32(b, e2) {
                Ok((sequence, e3)) => match p_u16(b, e3) {
                    Ok((slot, e4)) => match p_u16(b, e4) {
                        Ok((health, e5)) => Ok(((mx, mz, sequence, slot, health), e5)),
                        Err(f) => Err(f),
                    },
                    Err(f) => Err(f),
                },
                Err(f) => Err(f),
            },
            Err(f) => Err(f),
        },
        Err(f) => Err(f),
    }
}

pub open spec fn p_fate(b: Seq<u8>, o: int) -> Parsed<(bool, Option<u64>, Option<EliminationCause>)> {
    match p_bool(b, o) {
        Ok((alive, e1)) => match p_opt_u64(b, e1) {
            Ok((tick, e2)) => match p_cause(b, e2) {
                Ok((cause, e3)) => Ok(((alive, tick, cause), e3)),
                Err(f) => Err(f),
            },
            Err(f) => Err(f),
        },
        Err(f) => Err(f),
    }
}

#[verifier::opaque]
pub open spec fn p_canonical_player(b: Seq<u8>, o: int) -> Parsed<CanonicalPlayerSnapshot> {
    match p_motion(b, o) {
        Ok(((id, position, velocity), e1)) => match p_intent(b, e1) {
            Ok(((mx, mz, sequence, slot, health), e2)) => match p_fate(b, e2) {
                Ok(((alive, tick, cause), e3)) => Ok(
                    (
                        CanonicalPlayerSnapshot {
                            player_id: id,
                            position,
                            velocity,
                            movement_x: mx,
                            movement_z: mz,
                            last_sequence: sequence,
                            spawn_slot: slot,
                            health,
                            alive,
                            elimination_tick: tick,
                            elimination_cause: cause,
                        },
                        e3,
                    ),
                ),
                Err(f) => Err(f),
            },
            Err(f) => Err(f),
        },
        Err(f) => Err(f),
    }
}

#[verifier::opaque]
pub open spec fn p_player(b: Seq<u8>, o: int) -> Parsed<PlayerSnapshot> {
    match p_motion(b, o) {
        Ok(((id, position, velocity), e1)) => match p_u16(b, e1) {
            Ok((health, e2)) => match p_fate(b, e2) {
                Ok(((alive, tick, cause), e3)) => Ok(
                    (
                        PlayerSnapshot {
                            player_id: id,
                            position,
                            velocity,
                            health,
                            alive,
                            elimination_tick: tick,
                            elimination_cause: cause,
                        },
                        e3,
                    ),
                ),
                Err(f) => Err(f),
            },
            Err(f) => Err(f),
        },
        Err(f) => Err(f),
    }
}

/// `n` canonical players, one after another.
pub open spec fn p_canonical_players(b: Seq<u8>, o: int, n: nat) -> Parsed<Seq<CanonicalPlayerSnapshot>>
    decreases n,
{
    if n == 0 {
        Ok((Seq::empty(), o))
    } else {
        match p_canonical_players(b, o, (n - 1) as nat) {
            Ok((ps, e1)) => match p_canonical_player(b, e1) {
                Ok((p, e2)) => Ok((ps.push(p), e2)),
                Err(f) => Err(f),
            },
            Err(f) => Err(f),
        }
    }
}

/// `n` player projections, one after another.
pub open spec fn p_players(b: Seq<u8>, o: int, n: nat) -> Parsed<Seq<PlayerSnapshot>>
    decreases n,
{
    if n == 0 {
        Ok((Seq::empty(), o))
    } else {
        match p_players(b, o, (n - 1) as nat) {
            Ok((ps, e1)) => match p_player(b, e1) {
                Ok((p, e2)) => Ok((ps.push(p), e2)),
                Err(f) => Err(f),
            },
            Err(f) => Err(f),
        }
    }
}

proof fn lemma_read_motion(b: Seq<u8>, o: int, id: u32, position: [i32; 3], velocity: [i32; 3])
    requires
        region(b, o, motion_bytes(id, position, velocity)),
        b.len() <= usize::MAX,
    ensures
        p_motion(b, o) == Ok::<((u32, [i32; 3], [i32; 3]), int), DecodeFailure>(
            ((id, position, velocity), o + 28),
        ),
{
    lemma_region_split(b, o, le32(id) + vec3_bytes(position), vec3_bytes(velocity));
    lemma_region_split(b, o, le32(id), vec3_bytes(position));
    lemma_read_u32(b, o, id);
    lemma_read_vec3(b, o + 4, position);
    lemma_read_vec3(b, o + 16, velocity);
}

proof fn lemma_motion_exact(b: Seq<u8>, o: int)
    requires
        0 <= o,
    ensures
        p_motion(b, o) matches Ok(((id, position, velocity), e)) ==> e == o + 28 && region(
            b,
            o,
            motion_bytes(id, position, velocity),
        ),
{
    lemma_u32_exact(b, o);
    lemma_vec3_exact(b, o + 4);
    lemma_vec3_exact(b, o + 16);
    if let Ok(((id, position, velocity), e)) = p_motion(b, o) {
        lemma_region_join(b, o, le32(id), vec3_bytes(position));
        lemma_region_join(b, o, le32(id) + vec3_bytes(position), vec3_bytes(velocity));
    }
}

proof fn lemma_read_intent(b: Seq<u8>, o: int, p: CanonicalPlayerSnapshot)
    requires
        region(b, o, intent_bytes(p)),
        b.len() <= usize::MAX,
    ensures
        p_intent(b, o) == Ok::<((i8, i8, u32, u16, u16), int), DecodeFailure>(
            ((p.movement_x, p.movement_z, p.last_sequence, p.spawn_slot, p.health), o + 10),
        ),
{
    let a = seq![p.movement_x as u8];
    let c = seq![p.movement_z as u8];
    let d = le32(p.last_sequence);
    let f = le16(p.spawn_slot);
    let g = le16(p.health);
    lemma_region_split(b, o, a + c + d + f, g);
    lemma_region_split(b, o, a + c + d, f);
    lemma_region_split(b, o, a + c, d);
    lemma_region_split(b, o, a, c);
    lemma_read_i8(b, o, p.movement_x);
    lemma_read_i8(b, o + 1, p.movement_z);
    lemma_read_u32(b, o + 2, p.last_sequence);
    lemma_read_u16(b, o + 6, p.spawn_slot);
    lemma_read_u16(b, o + 8, p.health);
}

proof fn lemma_intent_exact(b: Seq<u8>, o: int)
    requires
        0 <= o,
    ensures
        p_intent(b, o) matches Ok(((mx, mz, sequence, slot, health), e)) ==> e == o + 10 && region(
            b,
            o,
            seq![mx as u8] + seq![mz as u8] + le32(sequence) + le16(slot) + le16(health),
        ),
{
    lemma_i8_exact(b, o);
    lemma_i8_exact(b, o + 1);
    lemma_u32_exact(b, o + 2);
    lemma_u16_exact(b, o + 6);
    lemma_u16_exact(b, o + 8);
    if let Ok(((mx, mz, sequence, slot, health), e)) = p_intent(b, o) {
        let a = seq![mx as u8];
        let c = seq![mz as u8];
        lemma_region_join(b, o, a, c);
        lemma_region_join(b, o, a + c, le32(sequence));
        lemma_region_join(b, o, a + c + le32(sequence), le16(slot));
        lemma_region_join(b, o, a + c + le32(sequence) + le16(slot), le16(health));
    }
}

proof fn lemma_read_fate(b: Seq<u8>, o: int, alive: bool, tick: Option<u64>, cause: Option<EliminationCause>)
    requires
        region(b, o, fate_bytes(alive, tick, cause)),
        b.len() <= usize::MAX,
    ensures
        p_fate(b, o) == Ok::<((bool, Option<u64>, Option<EliminationCause>), int), DecodeFailure>(
            ((alive, tick, cause), o + fate_bytes(alive, tick, cause).len()),
        ),
{
    let a = seq![bool_byte(alive)];
    let c = opt_u64_bytes(tick);
    let d = seq![cause_byte(cause)];
    lemma_region_split(b, o, a + c, d);
    lemma_region_split(b, o, a, c);
    lemma_read_bool(b, o, alive);
    lemma_read_opt_u64(b, o + 1, tick);
    lemma_read_cause(b, o + 1 + c.len(), cause);
}

proof fn lemma_fate_exact(b: Seq<u8>, o: int)
    requires
        0 <= o,
    ensures
        p_fate(b, o) matches Ok(((alive, tick, cause), e)) ==> e == o + fate_bytes(alive, tick, cause).len()
            && region(b, o, fate_bytes(alive, tick, cause)),
{
    lemma_bool_exact(b, o);
    lemma_opt_u64_exact(b, o + 1);
    if let Ok(((alive, tick, cause), e)) = p_fate(b, o) {
        let c = opt_u64_bytes(tick);
        lemma_cause_exact(b, o + 1 + c.len());
        lemma_region_join(b, o, seq![bool_byte(alive)], c);
        lemma_region_join(b, o, seq![bool_byte(alive)] + c, seq![cause_byte(cause)]);
    }
}

proof fn lemma_read_canonical_player(b: Seq<u8>, o: int, p: CanonicalPlayerSnapshot)
    requires
        region(b, o, canonical_player_bytes(p)),
        b.len() <= usize::MAX,
    ensures
        p_canonical_player(b, o) == Ok::<(CanonicalPlayerSnapshot, int), DecodeFailure>(
            (p, o + canonical_player_bytes(p).len()),
        ),
{
    reveal(p_canonical_player);
    reveal(p_player);
    let m = motion_bytes(p.player_id, p.position, p.velocity);
    let i = intent_bytes(p);
    let f = fate_bytes(p.alive, p.elimination_tick, p.elimination_cause);
    lemma_region_split(b, o, m + i, f);
    lemma_region_split(b, o, m, i);
    lemma_read_motion(b, o, p.player_id, p.position, p.velocity);
    lemma_read_intent(b, o + 28, p);
    lemma_read_fate(b, o + 38, p.alive, p.elimination_tick, p.elimination_cause);
}

proof fn lemma_canonical_player_exact(b: Seq<u8>, o: int)
    requires
        0 <= o,
    ensures
        p_canonical_player(b, o) matches Ok((p, e)) ==> e == o + canonical_player_bytes(p).len()
            && region(b, o, canonical_player_bytes(p)),
{
    reveal(p_canonical_player);
    reveal(p_player);
    lemma_motion_exact(b, o);
    lemma_intent_exact(b, o + 28);
    lemma_fate_exact(b, o + 38);
    if let Ok((p, e)) = p_canonical_player(b, o) {
        let m = motion_bytes(p.player_id, p.position, p.velocity);
        let i = intent_bytes(p);
        let f = fate_bytes(p.alive, p.elimination_tick, p.elimination_cause);
        lemma_region_join(b, o, m, i);
        lemma_region_join(b, o, m + i, f);
    }
}

proof fn lemma_read_player(b: Seq<u8>, o: int, p: PlayerSnapshot)
    requires
        region(b, o, player_bytes(p)),
        b.len() <= usize::MAX,
    ensures
        p_player(b, o) == Ok::<(PlayerSnapshot, int), DecodeFailure>((p, o + player_bytes(p).len())),
{
    reveal(p_canonical_player);
    reveal(p_player);
    let m = motion_bytes(p.player_id, p.position, p.velocity);
    let h = le16(p.health);
    let f = fate_bytes(p.alive, p.elimination_tick, p.elimination_cause);
    lemma_region_split(b, o, m + h, f);
    lemma_region_split(b, o, m, h);
    lemma_read_motion(b, o, p.player_id, p.position, p.velocity);
    lemma_read_u16(b, o + 28, p.health);
    lemma_read_fate(b, o + 30, p.alive, p.elimination_tick, p.elimination_cause);
}

proof fn lemma_player_exact(b: Seq<u8>, o: int)
    requires
        0 <= o,
    ensures
        p_player(b, o) matches Ok((p, e)) ==> e == o + player_bytes(p).len() && region(
            b,
            o,
            player_bytes(p),
        ),
{
    reveal(p_canonical_player);
    reveal(p_player);
    lemma_motion_exact(b, o);
    lemma_u16_exact(b, o + 28);
    lemma_fate_exact(b, o + 30);
    if let Ok((p, e)) = p_player(b, o) {
        let m = motion_bytes(p.player_id, p.position, p.velocity);
        let h = le16(p.health);
        let f = fate_bytes(p.alive, p.elimination_tick, p.elimination_cause);
        lemma_region_join(b, o, m, h);
        lemma_region_join(b, o, m + h, f);
    }
}

proof fn lemma_read_canonical_players(b: Seq<u8>, o: int, ps: Seq<CanonicalPlayerSnapshot>)
    requires
        region(b, o, canonical_players_bytes(ps)),
        b.len() <= usize::MAX,
    ensures
        p_canonical_players(b, o, ps.len()) == Ok::<(Seq<CanonicalPlayerSnapshot>, int), DecodeFailure>(
            (ps, o + canonical_players_bytes(ps).len()),
        ),
    decreases ps.len(),
{
    if ps.len() > 0 {
        let rest = ps.drop_last();
        lemma_region_split(b, o, canonical_players_bytes(rest), canonical_player_bytes(ps.last()));
        lemma_read_canonical_players(b, o, rest);
        lemma_read_canonical_player(b, o + canonical_players_bytes(rest).len(), ps.last());
        assert(rest.push(ps.last()) =~= ps);
    } else {
        assert(ps =~= Seq::<CanonicalPlayerSnapshot>::empty());
    }
}

proof fn lemma_canonical_players_exact(b: Seq<u8>, o: int, n: nat)
    requires
        0 <= o,
        o <= b.len(),
    ensures
        p_canonical_players(b, o, n) matches Ok((ps, e)) ==> ps.len() == n && e == o
            + canonical_players_bytes(ps).len() && region(b, o, canonical_players_bytes(ps)),
    decreases n,
{
    if n == 0 {
        assert(b.subrange(o, o) =~= Seq::<u8>::empty());
    } else {
        lemma_canonical_players_exact(b, o, (n - 1) as nat);
        if let Ok((rest, e1)) = p_canonical_players(b, o, (n - 1) as nat) {
            lemma_canonical_player_exact(b, e1);
            if let Ok((p, e2)) = p_canonical_player(b, e1) {
                let ps = rest.push(p);
                assert(ps.drop_last() =~= rest);
                lemma_region_join(b, o, canonical_players_bytes(rest), canonical_player_bytes(p));
            }
        }
    }
}

proof fn lemma_read_players(b: Seq<u8>, o: int, ps: Seq<PlayerSnapshot>)
    requires
        region(b, o, players_bytes(ps)),
        b.len() <= usize::MAX,
    ensures
        p_players(b, o, ps.len()) == Ok::<(Seq<PlayerSnapshot>, int), DecodeFailure>(
            (ps, o + players_bytes(ps).len()),
        ),
    decreases ps.len(),
{
    if ps.len() > 0 {
        let rest = ps.drop_last();
        lemma_region_split(b, o, players_bytes(rest), player_bytes(ps.last()));
        lemma_read_players(b, o, rest);
        lemma_read_player(b, o + players_bytes(rest).len(), ps.last());
        assert(rest.push(ps.last()) =~= ps);
    } else {
        assert(ps =~= Seq::<PlayerSnapshot>::empty());
    }
}

proof fn lemma_players_exact(b: Seq<u8>, o: int, n: nat)
    requires
        0 <= o,
        o <= b.len(),
    ensures
        p_players(b, o, n) matches Ok((ps, e)) ==> ps.len() == n && e == o + players_bytes(ps).len()
            && region(b, o, players_bytes(ps)),
    decreases n,
{
    if n == 0 {
        assert(b.subrange(o, o) =~= Seq::<u8>::empty());
    } else {
        lemma_players_exact(b, o, (n - 1) as nat);
        if let Ok((rest, e1)) = p_players(b, o, (n - 1) as nat) {
            lemma_player_exact(b, e1);
            if let Ok((p, e2)) = p_player(b, e1) {
                let ps = rest.push(p);
                assert(ps.drop_last() =~= rest);
                lemma_region_join(b, o, players_bytes(rest), player_bytes(p));
            }
        }
    }
}

// ---------------------------------------------------------------------------------------------
// Whole snapshots

pub open spec fn canonical_magic() -> Seq<u8> {
    seq![0x42u8, 0x52u8, 0x43u8, 0x41u8]
}

pub open spec fn player_magic() -> Seq<u8> {
    seq![0x42u8, 0x52u8, 0x50u8, 0x4cu8]
}

/// The player count as written: the list length, saturated at `u16::MAX`.
pub open spec fn player_count(n: nat) -> u16 {
    if n <= u16::MAX {
        n as u16
    } else {
        u16::MAX
    }
}

/// `BRCA`, the header, the player count, then every player with private state.
pub open spec fn canonical_snapshot_bytes(h: CommonHeader, ps: Seq<CanonicalPlayerSnapshot>) -> Seq<u8> {
    canonical_magic() + header_bytes(h) + le16(player_count(ps.len())) + canonical_players_bytes(ps)
}

/// `BRPL`, the header, the acknowledged sequence, the player count, then every visible player.
pub open spec fn player_snapshot_bytes(h: CommonHeader, acknowledged: u32, ps: Seq<PlayerSnapshot>) -> Seq<u8> {
    player_magic() + header_bytes(h) + le32(acknowledged) + le16(player_count(ps.len()))
        + players_bytes(ps)
}

pub open spec fn p_magic(b: Seq<u8>, o: int, magic: Seq<u8>) -> Result<int, DecodeFailure> {
    match take(b, o, 4) {
        Ok(e) => if b.subrange(o, e) == magic {
            Ok(e)
        } else {
            Err(DecodeFailure::BadMagic)
        },
        Err(f) => Err(f),
    }
}

/// Reading a canonical snapshot: magic, header, a player count of at most
/// `MAX_PLAYERS_PER_MATCH`, that many players, and nothing after them.
pub open spec fn canonical_decoding(b: Seq<u8>) -> Result<(CommonHeader, Seq<CanonicalPlayerSnapshot>), DecodeFailure> {
    match p_magic(b, 0, canonical_magic()) {
        Ok(e0) => match p_header(b, e0) {
            Ok((h, e1)) => match p_u16(b, e1) {
                Ok((count, e2)) => if count > MAX_PLAYERS_PER_MATCH {
                    Err(DecodeFailure::TooManyPlayers)
                } else {
                    match p_canonical_players(b, e2, count as nat) {
                        Ok((ps, e3)) => if e3 != b.len() {
                            Err(DecodeFailure::TrailingBytes)
                        } else {
                            Ok((h, ps))
                        },
                        Err(f) => Err(f),
                    }
                },
                Err(f) => Err(f),
            },
            Err(f) => Err(f),
        },
        Err(f) => Err(f),
    }
}

/// Reading a player-scoped snapshot: magic, header, acknowledged sequence, a player count of
/// at most `MAX_PLAYERS_PER_MATCH`, that many players, and nothing after them.
pub open spec fn player_decoding(b: Seq<u8>) -> Result<(CommonHeader, u32, Seq<PlayerSnapshot>), DecodeFailure> {
    match p_magic(b, 0, player_magic()) {
        Ok(e0) => match p_header(b, e0) {
            Ok((h, e1)) => match p_u32(b, e1) {
                Ok((acknowledged, e2)) => match p_u16(b, e2) {
                    Ok((count, e3)) => if count > MAX_PLAYERS_PER_MATCH {
                        Err(DecodeFailure::TooManyPlayers)
                    } else {
                        match p_players(b, e3, count as nat) {
                            Ok((ps, e4)) => if e4 != b.len() {
                                Err(DecodeFailure::TrailingBytes)
                            } else {
                                Ok((h, acknowledged, ps))
                            },
                            Err(f) => Err(f),
                        }
                    },
                    Err(f) => Err(f),
                },
                Err(f) => Err(f),
            },
            Err(f) => Err(f),
        },
        Err(f) => Err(f),
    }
}

proof fn lemma_header_len(h: CommonHeader)
    ensures
        header_bytes(h).len() <= 64,
{
    reveal(p_header);
    reveal(header_bytes);
}

proof fn lemma_canonical_players_len(ps: Seq<CanonicalPlayerSnapshot>)
    ensures
        canonical_players_bytes(ps).len() <= 49 * ps.len(),
    decreases ps.len(),
{
    if ps.len() > 0 {
        lemma_canonical_players_len(ps.drop_last());
    }
}

proof fn lemma_players_len(ps: Seq<PlayerSnapshot>)
    ensures
        players_bytes(ps).len() <= 41 * ps.len(),
    decreases ps.len(),
{
    if ps.len() > 0 {
        lemma_players_len(ps.drop_last());
    }
}

proof fn lemma_whole_region(b: Seq<u8>)
    ensures
        region(b, 0, b),
{
    assert(b.subrange(0, b.len() as int) =~= b);
}

proof fn lemma_read_magic(b: Seq<u8>, o: int, magic: Seq<u8>)
    requires
        magic.len() == 4,
        region(b, o, magic),
        b.len() <= usize::MAX,
    ensures
        p_magic(b, o, magic) == Ok::<int, DecodeFailure>(o + 4),
{
}

/// Reading stops at the first failure: a failed prefix of the player list fails the whole list.
proof fn lemma_canonical_players_failure_persists(b: Seq<u8>, o: int, i: nat, n: nat)
    requires
        i <= n,
        p_canonical_players(b, o, i) is Err,
    ensures
        p_canonical_players(b, o, n) == p_canonical_players(b, o, i),
    decreases n - i,
{
    if i < n {
        lemma_canonical_players_failure_persists(b, o, i, (n - 1) as nat);
    }
}

proof fn lemma_players_failure_persists(b: Seq<u8>, o: int, i: nat, n: nat)
    requires
        i <= n,
        p_players(b, o, i) is Err,
    ensures
        p_players(b, o, n) == p_players(b, o, i),
    decreases n - i,
{
    if i < n {
        lemma_players_failure_persists(b, o, i, (n - 1) as nat);
    }
}

/// Decoding an encoded canonical snapshot gives back its header and players, as long as it
/// holds no more players than a match admits.
pub proof fn lemma_canonical_snapshot_roundtrip(h: CommonHeader, ps: Seq<CanonicalPlayerSnapshot>)
    requires
        ps.len() <= MAX_PLAYERS_PER_MATCH,
    ensures
        canonical_decoding(canonical_snapshot_bytes(h, ps)) == Ok::<
            (CommonHeader, Seq<CanonicalPlayerSnapshot>),
            DecodeFailure,
        >((h, ps)),
{
    let m = canonical_magic();
    let hb = header_bytes(h);
    let c = le16(player_count(ps.len()));
    let pb = canonical_players_bytes(ps);
    let b = canonical_snapshot_bytes(h, ps);
    lemma_header_len(h);
    lemma_canonical_players_len(ps);
    assert(b.len() <= usize::MAX);
    lemma_whole_region(b);
    lemma_region_split(b, 0, m + hb + c, pb);
    lemma_region_split(b, 0, m + hb, c);
    lemma_region_split(b, 0, m, hb);
    lemma_read_magic(b, 0, m);
    lemma_read_header(b, 4, h);
    lemma_read_u16(b, (4 + hb.len()) as int, player_count(ps.len()));
    lemma_read_canonical_players(b, (6 + hb.len()) as int, ps);
}

/// A canonical snapshot decodes only from its exact encoding: no trailing, padded or
/// otherwise different payload is accepted.
pub proof fn lemma_canonical_decoding_exact(b: Seq<u8>)
    ensures
        canonical_decoding(b) matches Ok((h, ps)) ==> ps.len() <= MAX_PLAYERS_PER_MATCH && b
            == canonical_snapshot_bytes(h, ps),
{
    if let Ok((h, ps)) = canonical_decoding(b) {
        let m = canonical_magic();
        assert(b.subrange(0, 4) == m);
        lemma_header_exact(b, 4);
        let hb = header_bytes(h);
        lemma_u16_exact(b, (4 + hb.len()) as int);
        let (count, e2) = p_u16(b, (4 + hb.len()) as int)->Ok_0;
        lemma_canonical_players_exact(b, e2, count as nat);
        let c = le16(player_count(ps.len()));
        assert(c == le16(count));
        let pb = canonical_players_bytes(ps);
        lemma_region_join(b, 0, m, hb);
        lemma_region_join(b, 0, m + hb, c);
        lemma_region_join(b, 0, m + hb + c, pb);
        assert(b =~= canonical_snapshot_bytes(h, ps));
    }
}

/// Decoding an encoded player-scoped snapshot gives back its header, acknowledged sequence and
/// players, as long as it holds no more players than a match admits.
pub proof fn lemma_player_snapshot_roundtrip(h: CommonHeader, acknowledged: u32, ps: Seq<PlayerSnapshot>)
    requires
        ps.len() <= MAX_PLAYERS_PER_MATCH,
    ensures
        player_decoding(player_snapshot_bytes(h, acknowledged, ps)) == Ok::<
            (CommonHeader, u32, Seq<PlayerSnapshot>),
            DecodeFailure,
        >((h, acknowledged, ps)),
{
    let m = player_magic();
    let hb = header_bytes(h);
    let a = le32(acknowledged);
    let c = le16(player_count(ps.len()));
    let pb = players_bytes(ps);
    let b = player_snapshot_bytes(h, acknowledged, ps);
    lemma_header_len(h);
    lemma_players_len(ps);
    assert(b.len() <= usize::MAX);
    lemma_whole_region(b);
    lemma_region_split(b, 0, m + hb + a + c, pb);
    lemma_region_split(b, 0, m + hb + a, c);
    lemma_region_split(b, 0, m + hb, a);
    lemma_region_split(b, 0, m, hb);
    lemma_read_magic(b, 0, m);
    lemma_read_header(b, 4, h);
    lemma_read_u32(b, (4 + hb.len()) as int, acknowledged);
    lemma_read_u16(b, (8 + hb.len()) as int, player_count(ps.len()));
    lemma_read_players(b, (10 + hb.len()) as int, ps);
}

/// A player-scoped snapshot decodes only from its exact encoding.
pub proof fn lemma_player_decoding_exact(b: Seq<u8>)
    ensures
        player_decoding(b) matches Ok((h, acknowledged, ps)) ==> ps.len() <= MAX_PLAYERS_PER_MATCH
            && b == player_snapshot_bytes(h, acknowledged, ps),
{
    if let Ok((h, acknowledged, ps)) = player_decoding(b) {
        let m = player_magic();
        assert(b.subrange(0, 4) == m);
        lemma_header_exact(b, 4);
        let hb = header_bytes(h);
        lemma_u32_exact(b, (4 + hb.len()) as int);
        lemma_u16_exact(b, (8 + hb.len()) as int);
        let (count, e3) = p_u16(b, (8 + hb.len()) as int)->Ok_0;
        lemma_players_exact(b, e3, count as nat);
        let a = le32(acknowledged);
        let c = le16(player_count(ps.len()));
        assert(c == le16(count));
        let pb = players_bytes(ps);
        lemma_region_join(b, 0, m, hb);
        lemma_region_join(b, 0, m + hb, a);
        lemma_region_join(b, 0, m + hb + a, c);
        lemma_region_join(b, 0, m + hb + a + c, pb);
        assert(b =~= player_snapshot_bytes(h, acknowledged, ps));
    }
}

/// A command in range decodes back to itself.
pub proof fn lemma_command_roundtrip(command: MatchCommand)
    requires
        ({
            let MatchCommand::SetMovement { x, z } = command;
            -1 <= x <= 1 && -1 <= z <= 1
        }),
    ensures
        command_decoding(command_bytes(command)) == Ok::<MatchCommand, Seq<char>>(command),
{
    let MatchCommand::SetMovement { x, z } = command;
    let b = command_bytes(command);
    crate::wire::lemma_u16_roundtrip(PROTOCOL_VERSION);
    crate::wire::lemma_i8_roundtrip(x);
    crate::wire::lemma_i8_roundtrip(z);
    assert(b[0] == le16(PROTOCOL_VERSION)[0] && b[1] == le16(PROTOCOL_VERSION)[1]);
    assert(b[3] == x as u8 && b[4] == z as u8);
}

/// A command decodes only from its exact five-byte encoding.
pub proof fn lemma_command_decoding_exact(b: Seq<u8>)
    ensures
        command_decoding(b) matches Ok(c) ==> b == command_bytes(c),
{
    if let Ok(c) = command_decoding(b) {
        crate::wire::lemma_u16_bytes(b[0], b[1]);
        crate::wire::lemma_u8_as_i8(b[3]);
        crate::wire::lemma_u8_as_i8(b[4]);
        assert(b =~= command_bytes(c));
    }
}

// ---------------------------------------------------------------------------------------------
// Encoding and decoding snapshots

fn write_canonical_player(bytes: &mut Vec<u8>, player: &CanonicalPlayerSnapshot)
    ensures
        final(bytes)@ == old(bytes)@ + canonical_player_bytes(*player),
{
    write_u32(bytes, player.player_id);
    write_vec3(bytes, player.position);
    write_vec3(bytes, player.velocity);
    bytes.push(player.movement_x as u8);
    bytes.push(player.movement_z as u8);
    write_u32(bytes, player.last_sequence);
    write_u16(bytes, player.spawn_slot);
    write_u16(bytes, player.health);
    bytes.push(if player.alive { 1u8 } else { 0u8 });
    write_option_u64(bytes, player.elimination_tick);
    bytes.push(encode_cause(player.elimination_cause));
    assert(final(bytes)@ =~= old(bytes)@ + canonical_player_bytes(*player));
}

fn write_player(bytes: &mut Vec<u8>, player: &PlayerSnapshot)
    ensures
        final(bytes)@ == old(bytes)@ + player_bytes(*player),
{
    write_u32(bytes, player.player_id);
    write_vec3(bytes, player.position);
    write_vec3(bytes, player.velocity);
    write_u16(bytes, player.health);
    bytes.push(if player.alive { 1u8 } else { 0u8 });
    write_option_u64(bytes, player.elimination_tick);
    bytes.push(encode_cause(player.elimination_cause));
    assert(final(bytes)@ =~= old(bytes)@ + player_bytes(*player));
}

fn read_canonical_player(cursor: &mut Cursor) -> (r: Result<CanonicalPlayerSnapshot, DecodeFailure>)
    ensures
        final(cursor).bytes == old(cursor).bytes,
        read_as(r, p_canonical_player(old(cursor).bytes@, old(cursor).offset as int), final(cursor).offset),
{
    proof {
        reveal(p_canonical_player);
    }
    let player_id = cursor.read_u32()?;
    let position = cursor.read_vec3()?;
    let velocity = cursor.read_vec3()?;
    let movement_x = cursor.read_i8()?;
    let movement_z = cursor.read_i8()?;
    let last_sequence = cursor.read_u32()?;
    let spawn_slot = cursor.read_u16()?;
    let health = cursor.read_u16()?;
    let alive = cursor.read_bool()?;
    let elimination_tick = cursor.read_option_u64()?;
    let elimination_cause = cursor.read_cause()?;
    Ok(
        CanonicalPlayerSnapshot {
            player_id,
            position,
            velocity,
            movement_x,
            movement_z,
            last_sequence,
            spawn_slot,
            health,
            alive,
            elimination_tick,
            elimination_cause,
        },
    )
}

fn read_player(cursor: &mut Cursor) -> (r: Result<PlayerSnapshot, DecodeFailure>)
    ensures
        final(cursor).bytes == old(cursor).bytes,
        read_as(r, p_player(old(cursor).bytes@, old(cursor).offset as int), final(cursor).offset),
{
    proof {
        reveal(p_player);
    }
    let player_id = cursor.read_u32()?;
    let position = cursor.read_vec3()?;
    let velocity = cursor.read_vec3()?;
    let health = cursor.read_u16()?;
    let alive = cursor.read_bool()?;
    let elimination_tick = cursor.read_option_u64()?;
    let elimination_cause = cursor.read_cause()?;
    Ok(
        PlayerSnapshot {
            player_id,
            position,
            velocity,
            health,
            alive,
            elimination_tick,
            elimination_cause,
        },
    )
}

fn expect_magic(cursor: &mut Cursor, expected: [u8; 4]) -> (r: Result<(), DecodeFailure>)
    ensures
        final(cursor).bytes == old(cursor).bytes,
        match p_magic(old(cursor).bytes@, old(cursor).offset as int, expected@) {
            Ok(e) => r is Ok && final(cursor).offset == e,
            Err(f) => r == Err::<(), DecodeFailure>(f),
        },
{
    let s = cursor.take(4)?;
    let b = cursor.bytes;
    if b[s] != expected[0] || b[s + 1] != expected[1] || b[s + 2] != expected[2] || b[s + 3]
        != expected[3] {
        proof {
            let sub = b@.subrange(s as int, s + 4);
            if sub == expected@ {
                assert(sub[0] == expected@[0] && sub[1] == expected@[1] && sub[2] == expected@[2]
                    && sub[3] == expected@[3]);
            }
        }
        return Err(DecodeFailure::BadMagic);
    }
    assert(b@.subrange(s as int, s + 4) =~= expected@);
    Ok(())
}

fn validate_player_count(count: usize) -> (r: Result<(), DecodeFailure>)
    ensures
        r == (if count > MAX_PLAYERS_PER_MATCH {
            Err::<(), DecodeFailure>(DecodeFailure::TooManyPlayers)
        } else {
            Ok(())
        }),
{
    if count > MAX_PLAYERS_PER_MATCH {
        return Err(DecodeFailure::TooManyPlayers);
    }
    Ok(())
}

pub fn encode_canonical_snapshot(snapshot: &CanonicalMatchSnapshot) -> (bytes: Vec<u8>)
    ensures
        bytes@ == canonical_snapshot_bytes(canonical_header(*snapshot), snapshot.players@),
{
    let mut bytes: Vec<u8> = Vec::new();
    bytes.push(0x42u8);
    bytes.push(0x52u8);
    bytes.push(0x43u8);
    bytes.push(0x41u8);
    let header = CommonHeader {
        schema_version: snapshot.schema_version,
        ruleset_revision: snapshot.ruleset_revision,
        match_id: snapshot.match_id,
        tick: snapshot.tick,
        phase: snapshot.phase,
        phase_started_tick: snapshot.phase_started_tick,
        lobby_ready_tick: snapshot.lobby_ready_tick,
        storm: snapshot.storm,
        winner: snapshot.winner,
    };
    assert(bytes@ =~= canonical_magic());
    write_common_header(&mut bytes, &header);
    let n = snapshot.players.len();
    write_u16(&mut bytes, if n <= 65535 { n as u16 } else { 65535u16 });
    let ghost prefix = bytes@;
    let mut i: usize = 0;
    while i < n
        invariant
            n == snapshot.players@.len(),
            i <= n,
            bytes@ == prefix + canonical_players_bytes(snapshot.players@.take(i as int)),
        decreases n - i,
    {
        write_canonical_player(&mut bytes, &snapshot.players[i]);
        proof {
            let ps = snapshot.players@;
            assert(ps.take(i + 1).drop_last() =~= ps.take(i as int));
            assert(ps.take(i + 1).last() == ps[i as int]);
        }
        i = i + 1;
    }
    assert(snapshot.players@.take(n as int) =~= snapshot.players@);
    assert(bytes@ =~= canonical_snapshot_bytes(canonical_header(*snapshot), snapshot.players@));
    bytes
}

pub fn encode_snapshot(snapshot: &MatchSnapshot) -> (bytes: Vec<u8>)
    ensures
        bytes@ == player_snapshot_bytes(
            player_view_header(*snapshot),
            snapshot.acknowledged_sequence,
            snapshot.players@,
        ),
{
    let mut bytes: Vec<u8> = Vec::new();
    bytes.push(0x42u8);
    bytes.push(0x52u8);
    bytes.push(0x50u8);
    bytes.push(0x4cu8);
    let header = CommonHeader {
        schema_version: snapshot.schema_version,
        ruleset_revision: snapshot.ruleset_revision,
        match_id: snapshot.match_id,
        tick: snapshot.tick,
        phase: snapshot.phase,
        phase_started_tick: snapshot.phase_started_tick,
        lobby_ready_tick: snapshot.lobby_ready_tick,
        storm: snapshot.storm,
        winner: snapshot.winner,
    };
    assert(bytes@ =~= player_magic());
    write_common_header(&mut bytes, &header);
    write_u32(&mut bytes, snapshot.acknowledged_sequence);
    let n = snapshot.players.len();
    write_u16(&mut bytes, if n <= 65535 { n as u16 } else { 65535u16 });
    let ghost prefix = bytes@;
    let mut i: usize = 0;
    while i < n
        invariant
            n == snapshot.players@.len(),
            i <= n,
            bytes@ == prefix + players_bytes(snapshot.players@.take(i as int)),
        decreases n - i,
    {
        write_player(&mut bytes, &snapshot.players[i]);
        proof {
            let ps = snapshot.players@;
            assert(ps.take(i + 1).drop_last() =~= ps.take(i as int));
            assert(ps.take(i + 1).last() == ps[i as int]);
        }
        i = i + 1;
    }
    assert(snapshot.players@.take(n as int) =~= snapshot.players@);
    assert(bytes@ =~= player_snapshot_bytes(
        player_view_header(*snapshot),
        snapshot.acknowledged_sequence,
        snapshot.players@,
    ));
    bytes
}

fn decode_canonical_parts(payload: &[u8]) -> (r: Result<(CommonHeader, Vec<CanonicalPlayerSnapshot>), DecodeFailure>)
    ensures
        match canonical_decoding(payload@) {
            Ok((h, ps)) => r is Ok && r->Ok_0.0 == h && r->Ok_0.1@ == ps,
            Err(f) => r is Err && r->Err_0 == f,
        },
{
    let mut cursor = Cursor::new(payload);
    expect_magic(&mut cursor, [0x42u8, 0x52u8, 0x43u8, 0x41u8])?;
    let header = read_common_header(&mut cursor)?;
    let count = cursor.read_u16()? as usize;
    validate_player_count(count)?;
    let ghost start = cursor.offset as int;
    let mut players: Vec<CanonicalPlayerSnapshot> = Vec::new();
    let mut i: usize = 0;
    while i < count
        invariant
            cursor.bytes == payload,
            i <= count,
            p_canonical_players(payload@, start, i as nat) == Ok::<(Seq<CanonicalPlayerSnapshot>, int), DecodeFailure>((players@, cursor.offset as int)),
            canonical_decoding(payload@) == (match p_canonical_players(payload@, start, count as nat) {
                Ok((ps, e3)) => if e3 != payload@.len() {
                    Err(DecodeFailure::TrailingBytes)
                } else {
                    Ok((header, ps))
                },
                Err(f) => Err(f),
            }),
        decreases count - i,
    {
        match read_canonical_player(&mut cursor) {
            Ok(p) => {
                players.push(p);
            },
            Err(f) => {
                proof {
                    lemma_canonical_players_failure_persists(payload@, start, (i + 1) as nat, count as nat);
                }
                return Err(f);
            },
        }
        i = i + 1;
    }
    cursor.finish()?;
    Ok((header, players))
}

pub fn decode_canonical_snapshot(payload: &[u8]) -> (r: Result<CanonicalMatchSnapshot, ProtocolError>)
    ensures
        match canonical_decoding(payload@) {
            Ok((h, ps)) => r is Ok && canonical_header(r->Ok_0) == h && r->Ok_0.players@ == ps,
            Err(f) => rejects_with(r, failure_text(f)),
        },
{
    match decode_canonical_parts(payload) {
        Ok((header, players)) => Ok(
            CanonicalMatchSnapshot {
                schema_version: header.schema_version,
                ruleset_revision: header.ruleset_revision,
                match_id: header.match_id,
                tick: header.tick,
                phase: header.phase,
                phase_started_tick: header.phase_started_tick,
                lobby_ready_tick: header.lobby_ready_tick,
                storm: header.storm,
                winner: header.winner,
                players,
            },
        ),
        Err(f) => Err(failure_error(f)),
    }
}

fn decode_player_parts(payload: &[u8]) -> (r: Result<(CommonHeader, u32, Vec<PlayerSnapshot>), DecodeFailure>)
    ensures
        match player_decoding(payload@) {
            Ok((h, a, ps)) => r is Ok && r->Ok_0.0 == h && r->Ok_0.1 == a && r->Ok_0.2@ == ps,
            Err(f) => r is Err && r->Err_0 == f,
        },
{
    let mut cursor = Cursor::new(payload);
    expect_magic(&mut cursor, [0x42u8, 0x52u8, 0x50u8, 0x4cu8])?;
    let header = read_common_header(&mut cursor)?;
    let acknowledged_sequence = cursor.read_u32()?;
    let count = cursor.read_u16()? as usize;
    validate_player_count(count)?;
    let ghost start = cursor.offset as int;
    let mut players: Vec<PlayerSnapshot> = Vec::new();
    let mut i: usize = 0;
    while i < count
        invariant
            cursor.bytes == payload,
            i <= count,
            p_players(payload@, start, i as nat) == Ok::<(Seq<PlayerSnapshot>, int), DecodeFailure>((players@, cursor.offset as int)),
            player_decoding(payload@) == (match p_players(payload@, start, count as nat) {
                Ok((ps, e4)) => if e4 != payload@.len() {
                    Err(DecodeFailure::TrailingBytes)
                } else {
                    Ok((header, acknowledged_sequence, ps))
                },
                Err(f) => Err(f),
            }),
        decreases count - i,
    {
        match read_player(&mut cursor) {
            Ok(p) => {
                players.push(p);
            },
            Err(f) => {
                proof {
                    lemma_players_failure_persists(payload@, start, (i + 1) as nat, count as nat);
                }
                return Err(f);
            },
        }
        i = i + 1;
    }
    cursor.finish()?;
    Ok((header, acknowledged_sequence, players))
}

pub fn decode_snapshot(payload: &[u8]) -> (r: Result<MatchSnapshot, ProtocolError>)
    ensures
        match player_decoding(payload@) {
            Ok((h, a, ps)) => r is Ok && player_view_header(r->Ok_0) == h
                && r->Ok_0.acknowledged_sequence == a && r->Ok_0.players@ == ps,
            Err(f) => rejects_with(r, failure_text(f)),
        },
{
    match decode_player_parts(payload) {
        Ok((header, acknowledged_sequence, players)) => Ok(
            MatchSnapshot {
                schema_version: header.schema_version,
                ruleset_revision: header.ruleset_revision,
                match_id: header.match_id,
                tick: header.tick,
                phase: header.phase,
                phase_started_tick: header.phase_started_tick,
                lobby_ready_tick: header.lobby_ready_tick,
                storm: header.storm,
                winner: header.winner,
                acknowledged_sequence,
                players,
            },
        ),
        Err(f) => Err(failure_error(f)),
    }
}

// ---------------------------------------------------------------------------------------------
// Cut and extended payloads

proof fn lemma_cut_magic(b: Seq<u8>, o: int, k: int, magic: Seq<u8>)
    requires
        0 <= o,
        0 <= k <= b.len(),
    ensures
        p_magic(b, o, magic) matches Ok(e) ==> e == o + 4 && (if e <= k {
            p_magic(b.take(k), o, magic) == p_magic(b, o, magic)
        } else {
            p_magic(b.take(k), o, magic) == Err::<int, DecodeFailure>(DecodeFailure::Truncated)
        }),
{
    if p_magic(b, o, magic) is Ok && o + 4 <= k {
        assert(b.take(k).subrange(o, o + 4) =~= b.subrange(o, o + 4));
    }
}

proof fn lemma_cut_ids(b: Seq<u8>, o: int, k: int)
    requires
        0 <= o,
        0 <= k <= b.len(),
    ensures
        cut_reads(p_ids(b, o), p_ids(b.take(k), o), k),
        p_ids(b, o) matches Ok((_, e)) ==> e == o + 26,
{
    lemma_cut_u16(b, o, k);
    if o + 2 <= k {
        lemma_cut_u64(b, o + 2, k);
        if o + 10 <= k {
            lemma_cut_u64(b, o + 10, k);
            if o + 18 <= k {
                lemma_cut_u64(b, o + 18, k);
            }
        }
    }
}

proof fn lemma_cut_state(b: Seq<u8>, o: int, k: int)
    requires
        0 <= o,
        0 <= k <= b.len(),
    ensures
        cut_reads(p_state(b, o), p_state(b.take(k), o), k),
        p_state(b, o) matches Ok((_, e)) ==> o < e,
{
    lemma_cut_phase(b, o, k);
    if o + 1 <= k {
        lemma_cut_u64(b, o + 1, k);
        if o + 9 <= k {
            lemma_cut_opt_u64(b, o + 9, k);
        }
    }
}

proof fn lemma_cut_storm(b: Seq<u8>, o: int, k: int)
    requires
        0 <= o,
        0 <= k <= b.len(),
    ensures
        cut_reads(p_storm(b, o), p_storm(b.take(k), o), k),
        p_storm(b, o) matches Ok((_, e)) ==> e == o + 13,
{
    lemma_cut_i32(b, o, k);
    if o + 4 <= k {
        lemma_cut_i32(b, o + 4, k);
        if o + 8 <= k {
            lemma_cut_i32(b, o + 8, k);
            if o + 12 <= k {
                lemma_cut_bool(b, o + 12, k);
            }
        }
    }
}

proof fn lemma_cut_header(b: Seq<u8>, o: int, k: int)
    requires
        0 <= o,
        0 <= k <= b.len(),
    ensures
        cut_reads(p_header(b, o), p_header(b.take(k), o), k),
        p_header(b, o) matches Ok((_, e)) ==> o < e,
{
    reveal(p_header);
    let c = b.take(k);
    lemma_cut_u16(b, o, k);
    if let Ok((version, e0)) = p_u16(b, o) {
        if e0 <= k && version == PROTOCOL_VERSION {
            lemma_cut_ids(b, e0, k);
            if let Ok((_, e1)) = p_ids(b, e0) {
                if e1 <= k {
                    lemma_cut_state(b, e1, k);
                    if let Ok((_, e2)) = p_state(b, e1) {
                        if e2 <= k {
                            lemma_cut_storm(b, e2, k);
                            if let Ok((_, e3)) = p_storm(b, e2) {
                                if e3 <= k {
                                    lemma_cut_opt_u32(b, e3, k);
                                }
                            }
                        }
                    }
                }
            }
        }
    }
}

proof fn lemma_cut_motion(b: Seq<u8>, o: int, k: int)
    requires
        0 <= o,
        0 <= k <= b.len(),
    ensures
        cut_reads(p_motion(b, o), p_motion(b.take(k), o), k),
        p_motion(b, o) matches Ok((_, e)) ==> e == o + 28,
{
    lemma_cut_u32(b, o, k);
    if o + 4 <= k {
        lemma_cut_vec3(b, o + 4, k);
        if o + 16 <= k {
            lemma_cut_vec3(b, o + 16, k);
        }
    }
}

proof fn lemma_cut_intent(b: Seq<u8>, o: int, k: int)
    requires
        0 <= o,
        0 <= k <= b.len(),
    ensures
        cut_reads(p_intent(b, o), p_intent(b.take(k), o), k),
        p_intent(b, o) matches Ok((_, e)) ==> e == o + 10,
{
    lemma_cut_i8(b, o, k);
    if o + 1 <= k {
        lemma_cut_i8(b, o + 1, k);
        if o + 2 <= k {
            lemma_cut_u32(b, o + 2, k);
            if o + 6 <= k {
                lemma_cut_u16(b, o + 6, k);
                if o + 8 <= k {
                    lemma_cut_u16(b, o + 8, k);
                }
            }
        }
    }
}

proof fn lemma_cut_fate(b: Seq<u8>, o: int, k: int)
    requires
        0 <= o,
        0 <= k <= b.len(),
    ensures
        cut_reads(p_fate(b, o), p_fate(b.take(k), o), k),
        p_fate(b, o) matches Ok((_, e)) ==> o < e,
{
    lemma_cut_bool(b, o, k);
    if o + 1 <= k {
        lemma_cut_opt_u64(b, o + 1, k);
        if let Ok((_, e2)) = p_opt_u64(b, o + 1) {
            if e2 <= k {
                lemma_cut_cause(b, e2, k);
            }
        }
    }
}

proof fn lemma_cut_canonical_player(b: Seq<u8>, o: int, k: int)
    requires
        0 <= o,
        0 <= k <= b.len(),
    ensures
        cut_reads(p_canonical_player(b, o), p_canonical_player(b.take(k), o), k),
        p_canonical_player(b, o) matches Ok((_, e)) ==> o < e,
{
    reveal(p_canonical_player);
    lemma_cut_motion(b, o, k);
    if o + 28 <= k {
        lemma_cut_intent(b, o + 28, k);
        if o + 38 <= k {
            lemma_cut_fate(b, o + 38, k);
        }
    }
}

/// A list read that succeeded on the whole payload ends no earlier than it starts, and on the
/// cut payload it either reads the same or fails as truncated.
proof fn lemma_cut_canonical_players(b: Seq<u8>, o: int, n: nat, k: int)
    requires
        0 <= o <= k <= b.len(),
    ensures
        cut_reads(p_canonical_players(b, o, n), p_canonical_players(b.take(k), o, n), k),
        p_canonical_players(b, o, n) matches Ok((_, e)) ==> o <= e,
    decreases n,
{
    let c = b.take(k);
    if n > 0 {
        let m = (n - 1) as nat;
        lemma_cut_canonical_players(b, o, m, k);
        assert(p_canonical_players(b, o, n) == match p_canonical_players(b, o, m) {
            Ok((ps, e1)) => match p_canonical_player(b, e1) {
                Ok((p, e2)) => Ok((ps.push(p), e2)),
                Err(f) => Err(f),
            },
            Err(f) => Err(f),
        });
        assert(p_canonical_players(c, o, n) == match p_canonical_players(c, o, m) {
            Ok((ps, e1)) => match p_canonical_player(c, e1) {
                Ok((p, e2)) => Ok((ps.push(p), e2)),
                Err(f) => Err(f),
            },
            Err(f) => Err(f),
        });
        if let Ok((_, e1)) = p_canonical_players(b, o, m) {
            lemma_cut_canonical_player(b, e1, k);
        }
    }
}

/// Every strict prefix of an encoded canonical snapshot is refused as truncated
/// ("truncated snapshot").
#[verifier::rlimit(40)]
pub proof fn lemma_canonical_decoding_cut(h: CommonHeader, ps: Seq<CanonicalPlayerSnapshot>, k: int)
    requires
        ps.len() <= MAX_PLAYERS_PER_MATCH,
        0 <= k < canonical_snapshot_bytes(h, ps).len(),
    ensures
        canonical_decoding(canonical_snapshot_bytes(h, ps).take(k)) == Err::<
            (CommonHeader, Seq<CanonicalPlayerSnapshot>),
            DecodeFailure,
        >(DecodeFailure::Truncated),
        failure_text(DecodeFailure::Truncated) == "truncated snapshot"@,
{
    let b = canonical_snapshot_bytes(h, ps);
    lemma_canonical_snapshot_roundtrip(h, ps);
    lemma_cut_magic(b, 0, k, canonical_magic());
    let e0 = p_magic(b, 0, canonical_magic())->Ok_0;
    if e0 <= k {
        lemma_cut_header(b, e0, k);
        let e1 = p_header(b, e0)->Ok_0.1;
        if e1 <= k {
            lemma_cut_u16(b, e1, k);
            let (count, e2) = p_u16(b, e1)->Ok_0;
            if e2 <= k {
                lemma_cut_canonical_players(b, e2, count as nat, k);
            }
        }
    }
}

/// An encoded canonical snapshot followed by any further bytes is refused as having trailing
/// bytes ("snapshot has trailing bytes").
#[verifier::rlimit(40)]
pub proof fn lemma_canonical_decoding_extended(h: CommonHeader, ps: Seq<CanonicalPlayerSnapshot>, extra: Seq<u8>)
    requires
        ps.len() <= MAX_PLAYERS_PER_MATCH,
        extra.len() > 0,
        canonical_snapshot_bytes(h, ps).len() + extra.len() <= usize::MAX,
    ensures
        canonical_decoding(canonical_snapshot_bytes(h, ps) + extra) == Err::<
            (CommonHeader, Seq<CanonicalPlayerSnapshot>),
            DecodeFailure,
        >(DecodeFailure::TrailingBytes),
        failure_text(DecodeFailure::TrailingBytes) == "snapshot has trailing bytes"@,
{
    let b = canonical_snapshot_bytes(h, ps);
    let x = b + extra;
    let m = canonical_magic();
    let hb = header_bytes(h);
    let cb = le16(player_count(ps.len()));
    let pb = canonical_players_bytes(ps);
    lemma_header_len(h);
    lemma_canonical_players_len(ps);
    assert(region(x, 0, b)) by {
        assert(x.subrange(0, b.len() as int) =~= b);
    }
    lemma_region_split(x, 0, m + hb + cb, pb);
    lemma_region_split(x, 0, m + hb, cb);
    lemma_region_split(x, 0, m, hb);
    lemma_read_magic(x, 0, m);
    lemma_read_header(x, 4, h);
    lemma_read_u16(x, (4 + hb.len()) as int, player_count(ps.len()));
    lemma_read_canonical_players(x, (6 + hb.len()) as int, ps);
    assert(x.len() == b.len() + extra.len());
}

proof fn lemma_cut_player(b: Seq<u8>, o: int, k: int)
    requires
        0 <= o,
        0 <= k <= b.len(),
    ensures
        cut_reads(p_player(b, o), p_player(b.take(k), o), k),
        p_player(b, o) matches Ok((_, e)) ==> o < e,
{
    reveal(p_player);
    lemma_cut_motion(b, o, k);
    lemma_cut_u16(b, o + 28, k);
    if o + 30 <= k {
        lemma_cut_fate(b, o + 30, k);
    }
}

proof fn lemma_cut_players(b: Seq<u8>, o: int, n: nat, k: int)
    requires
        0 <= o <= k <= b.len(),
    ensures
        cut_reads(p_players(b, o, n), p_players(b.take(k), o, n), k),
        p_players(b, o, n) matches Ok((_, e)) ==> o <= e,
    decreases n,
{
    let c = b.take(k);
    if n > 0 {
        let m = (n - 1) as nat;
        lemma_cut_players(b, o, m, k);
        assert(p_players(b, o, n) == match p_players(b, o, m) {
            Ok((ps, e1)) => match p_player(b, e1) {
                Ok((p, e2)) => Ok((ps.push(p), e2)),
                Err(f) => Err(f),
            },
            Err(f) => Err(f),
        });
        assert(p_players(c, o, n) == match p_players(c, o, m) {
            Ok((ps, e1)) => match p_player(c, e1) {
                Ok((p, e2)) => Ok((ps.push(p), e2)),
                Err(f) => Err(f),
            },
            Err(f) => Err(f),
        });
        if let Ok((_, e1)) = p_players(b, o, m) {
            lemma_cut_player(b, e1, k);
        }
    }
}

/// Every strict prefix of an encoded player-scoped snapshot is refused as truncated.
#[verifier::rlimit(40)]
pub proof fn lemma_player_decoding_cut(h: CommonHeader, acknowledged: u32, ps: Seq<PlayerSnapshot>, k: int)
    requires
        ps.len() <= MAX_PLAYERS_PER_MATCH,
        0 <= k < player_snapshot_bytes(h, acknowledged, ps).len(),
    ensures
        player_decoding(player_snapshot_bytes(h, acknowledged, ps).take(k)) == Err::<
            (CommonHeader, u32, Seq<PlayerSnapshot>),
            DecodeFailure,
        >(DecodeFailure::Truncated),
{
    let b = player_snapshot_bytes(h, acknowledged, ps);
    lemma_player_snapshot_roundtrip(h, acknowledged, ps);
    lemma_cut_magic(b, 0, k, player_magic());
    let e0 = p_magic(b, 0, player_magic())->Ok_0;
    if e0 <= k {
        lemma_cut_header(b, e0, k);
        let e1 = p_header(b, e0)->Ok_0.1;
        lemma_cut_u32(b, e1, k);
        if e1 + 4 <= k {
            lemma_cut_u16(b, e1 + 4, k);
            let (count, e3) = p_u16(b, e1 + 4)->Ok_0;
            if e3 <= k {
                lemma_cut_players(b, e3, count as nat, k);
            }
        }
    }
}

/// An encoded player-scoped snapshot followed by any further bytes is refused as having
/// trailing bytes.
#[verifier::rlimit(40)]
pub proof fn lemma_player_decoding_extended(
    h: CommonHeader,
    acknowledged: u32,
    ps: Seq<PlayerSnapshot>,
    extra: Seq<u8>,
)
    requires
        ps.len() <= MAX_PLAYERS_PER_MATCH,
        extra.len() > 0,
        player_snapshot_bytes(h, acknowledged, ps).len() + extra.len() <= usize::MAX,
    ensures
        player_decoding(player_snapshot_bytes(h, acknowledged, ps) + extra) == Err::<
            (CommonHeader, u32, Seq<PlayerSnapshot>),
            DecodeFailure,
        >(DecodeFailure::TrailingBytes),
{
    let b = player_snapshot_bytes(h, acknowledged, ps);
    let x = b + extra;
    let m = player_magic();
    let hb = header_bytes(h);
    let a = le32(acknowledged);
    let c = le16(player_count(ps.len()));
    let pb = players_bytes(ps);
    lemma_header_len(h);
    lemma_players_len(ps);
    assert(region(x, 0, b)) by {
        assert(x.subrange(0, b.len() as int) =~= b);
    }
    lemma_region_split(x, 0, m + hb + a + c, pb);
    lemma_region_split(x, 0, m + hb + a, c);
    lemma_region_split(x, 0, m + hb, a);
    lemma_region_split(x, 0, m, hb);
    lemma_read_magic(x, 0, m);
    lemma_read_header(x, 4, h);
    lemma_read_u32(x, (4 + hb.len()) as int, acknowledged);
    lemma_read_u16(x, (8 + hb.len()) as int, player_count(ps.len()));
    lemma_read_players(x, (10 + hb.len()) as int, ps);
    assert(x.len() == b.len() + extra.len());
}

} // verus!
