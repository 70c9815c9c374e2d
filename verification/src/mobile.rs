//! Touch thumbstick input quantized into the authoritative movement command.
use vstd::prelude::*;
use crate::match_types::MatchCommand;

verus! {

pub const MOBILE_STICK_SCALE: i32 = 1_000;
pub const MOBILE_STICK_DEAD_ZONE: i32 = 420;
pub const MOBILE_DIAGONAL_ENTER_PER_MILLE: i32 = 600;
pub const MOBILE_DIAGONAL_EXIT_PER_MILLE: i32 = 450;

/// One thumbstick reading in screen coordinates: `x` to the right, `y` downwards, nominally in
/// `-MOBILE_STICK_SCALE..=MOBILE_STICK_SCALE`.
#[derive(Clone, Copy, Debug, PartialEq, Eq, Structural)]
pub struct MobileStickSample {
    pub x: i32,
    pub y: i32,
}

impl MobileStickSample {
    /// The stick at rest.
    pub fn zero() -> (s: Self)
        ensures
            s.x == 0 && s.y == 0,
    {
        Self { x: 0, y: 0 }
    }

    pub fn new(x: i32, y: i32) -> (s: Self)
        ensures
            s.x == x,
            s.y == y,
    {
        Self { x, y }
    }
}

impl Default for MobileStickSample {
    fn default() -> (s: Self)
        ensures
            s.x == 0 && s.y == 0,
    {
        Self { x: 0, y: 0 }
    }
}

/// A quantized movement direction in world axes, each component in `-1..=1`.
#[derive(Clone, Copy, Debug, PartialEq, Eq, Structural)]
pub struct MobileMovementIntent {
    pub x: i8,
    pub z: i8,
}

impl MobileMovementIntent {
    /// No movement.
    pub fn stopped() -> (i: Self)
        ensures
            i == stopped(),
    {
        Self { x: 0, z: 0 }
    }

    /// The movement command carrying this intent.
    pub fn command(self) -> (c: MatchCommand)
        ensures
            c == (MatchCommand::SetMovement { x: self.x, z: self.z }),
    {
        MatchCommand::SetMovement { x: self.x, z: self.z }
    }
}

impl Default for MobileMovementIntent {
    fn default() -> (i: Self)
        ensures
            i == (MobileMovementIntent { x: 0, z: 0 }),
    {
        Self { x: 0, z: 0 }
    }
}

pub open spec fn stopped() -> MobileMovementIntent {
    MobileMovementIntent { x: 0, z: 0 }
}

pub open spec fn clamp_axis(v: i32) -> int {
    if v < -MOBILE_STICK_SCALE {
        -MOBILE_STICK_SCALE as int
    } else if v > MOBILE_STICK_SCALE {
        MOBILE_STICK_SCALE as int
    } else {
        v as int
    }
}

pub open spec fn abs(v: int) -> int {
    if v < 0 {
        -v
    } else {
        v
    }
}

pub open spec fn sign(v: int) -> i8 {
    if v > 0 {
        1
    } else if v < 0 {
        -1i8
    } else {
        0
    }
}

/// The weaker axis counts when it reaches a share of the dominant axis: 60% to switch it on,
/// 45% to keep it on once it was.
pub open spec fn secondary_active(secondary: int, dominant: int, was_active: bool) -> bool {
    dominant != 0 && secondary * MOBILE_STICK_SCALE >= dominant * (if was_active {
        MOBILE_DIAGONAL_EXIT_PER_MILLE as int
    } else {
        MOBILE_DIAGONAL_ENTER_PER_MILLE as int
    })
}

/// Inside the radial dead zone of the clamped sample.
pub open spec fn in_dead_zone(sample: MobileStickSample) -> bool {
    clamp_axis(sample.x) * clamp_axis(sample.x) + clamp_axis(sample.y) * clamp_axis(sample.y)
        <= MOBILE_STICK_DEAD_ZONE * MOBILE_STICK_DEAD_ZONE
}

/// The sample clamped to the stick scale; nothing inside the dead zone; otherwise the dominant
/// axis (ties go to `x`) always counts and the other with hysteresis. Screen `y` grows
/// downwards while world `z` grows forwards, so `z` is `-y`.
pub open spec fn quantized(sample: MobileStickSample, previous: MobileMovementIntent) -> MobileMovementIntent {
    let x = clamp_axis(sample.x);
    let z = -clamp_axis(sample.y);
    if in_dead_zone(sample) {
        stopped()
    } else {
        let x_active = abs(x) >= abs(z) || secondary_active(abs(x), abs(z), previous.x != 0);
        let z_active = abs(x) < abs(z) || secondary_active(abs(z), abs(x), previous.z != 0);
        MobileMovementIntent {
            x: if x_active { sign(x) } else { 0 },
            z: if z_active { sign(z) } else { 0 },
        }
    }
}

fn clamp(v: i32) -> (r: i32)
    ensures
        r == clamp_axis(v),
{
    if v < -MOBILE_STICK_SCALE {
        -MOBILE_STICK_SCALE
    } else if v > MOBILE_STICK_SCALE {
        MOBILE_STICK_SCALE
    } else {
        v
    }
}

fn secondary_axis_is_active(secondary: i32, dominant: i32, was_active: bool) -> (r: bool)
    requires
        0 <= secondary <= MOBILE_STICK_SCALE,
        0 <= dominant <= MOBILE_STICK_SCALE,
    ensures
        r == secondary_active(secondary as int, dominant as int, was_active),
{
    if dominant == 0 {
        return false;
    }
    let threshold = if was_active {
        MOBILE_DIAGONAL_EXIT_PER_MILLE
    } else {
        MOBILE_DIAGONAL_ENTER_PER_MILLE
    };
    assert(secondary * MOBILE_STICK_SCALE <= 1_000_000) by (nonlinear_arith)
        requires
            0 <= secondary <= 1000,
    ;
    assert(dominant * threshold <= 1_000_000) by (nonlinear_arith)
        requires
            0 <= dominant <= 1000,
            0 <= threshold <= 1000,
    ;
    secondary * MOBILE_STICK_SCALE >= dominant * threshold
}

fn axis_sign(value: i32) -> (s: i8)
    ensures
        s == sign(value as int),
{
    if value > 0 {
        1
    } else if value < 0 {
        -1
    } else {
        0
    }
}

/// Quantize a thumbstick sample against the previously emitted intent.
pub fn quantize_mobile_stick(sample: MobileStickSample, previous: MobileMovementIntent) -> (intent: MobileMovementIntent)
    ensures
        intent == quantized(sample, previous),
{
    let x = clamp(sample.x);
    let screen_y = clamp(sample.y);
    assert(x * x <= 1_000_000 && 0 <= x * x) by (nonlinear_arith)
        requires
            -1000 <= x <= 1000,
    ;
    assert(screen_y * screen_y <= 1_000_000 && 0 <= screen_y * screen_y) by (nonlinear_arith)
        requires
            -1000 <= screen_y <= 1000,
    ;
    let radius_squared = (x * x) + (screen_y * screen_y);
    if radius_squared <= MOBILE_STICK_DEAD_ZONE * MOBILE_STICK_DEAD_ZONE {
        return MobileMovementIntent { x: 0, z: 0 };
    }
    let z = -screen_y;
    let abs_x = if x < 0 { -x } else { x };
    let abs_z = if z < 0 { -z } else { z };
    let (x_active, z_active) = if abs_x >= abs_z {
        (true, secondary_axis_is_active(abs_z, abs_x, previous.z != 0))
    } else {
        (secondary_axis_is_active(abs_x, abs_z, previous.x != 0), true)
    };
    MobileMovementIntent {
        x: if x_active { axis_sign(x) } else { 0 },
        z: if z_active { axis_sign(z) } else { 0 },
    }
}

/// Emits a movement command only when the quantized intent changes.
#[derive(Clone, Copy, Debug, PartialEq, Eq)]
pub struct MobileMovementAdapter {
    current: MobileMovementIntent,
}

impl Default for MobileMovementAdapter {
    fn default() -> (a: Self)
        ensures
            a.intent() == stopped(),
    {
        Self { current: MobileMovementIntent { x: 0, z: 0 } }
    }
}

impl MobileMovementAdapter {
    /// The intent last emitted.
    pub closed spec fn intent(self) -> MobileMovementIntent {
        self.current
    }

    pub fn current(self) -> (intent: MobileMovementIntent)
        ensures
            intent == self.intent(),
    {
        self.current
    }

    /// Take a new sample; returns the new command when the quantized intent changed.
    pub fn update(&mut self, sample: MobileStickSample) -> (command: Option<MatchCommand>)
        ensures
            final(self).intent() == quantized(sample, old(self).intent()),
            command == (if quantized(sample, old(self).intent()) == old(self).intent() {
                None
            } else {
                Some(
                    MatchCommand::SetMovement {
                        x: quantized(sample, old(self).intent()).x,
                        z: quantized(sample, old(self).intent()).z,
                    },
                )
            }),
    {
        let next = quantize_mobile_stick(sample, self.current);
        if next == self.current {
            return None;
        }
        self.current = next;
        Some(next.command())
    }

    /// The thumb left the stick: stop, and say so unless already stopped.
    pub fn release(&mut self) -> (command: Option<MatchCommand>)
        ensures
            final(self).intent() == stopped(),
            command == (if old(self).intent() == stopped() {
                None
            } else {
                Some(MatchCommand::SetMovement { x: 0, z: 0 })
            }),
    {
        let r = self.update(MobileStickSample { x: 0, y: 0 });
        assert(clamp_axis(0) == 0);
        assert(0int * 0int + 0int * 0int <= 420int * 420int) by (nonlinear_arith);
        assert(in_dead_zone(MobileStickSample { x: 0, y: 0 }));
        r
    }
}

/// Every quantized intent is a unit step per axis; outside the dead zone the stick always moves
/// the player, and inside it never does.
pub proof fn lemma_quantized_is_a_step(sample: MobileStickSample, previous: MobileMovementIntent)
    ensures
        -1 <= quantized(sample, previous).x <= 1,
        -1 <= quantized(sample, previous).z <= 1,
        in_dead_zone(sample) <==> quantized(sample, previous) == stopped(),
{
    let x = clamp_axis(sample.x);
    let y = clamp_axis(sample.y);
    if !in_dead_zone(sample) {
        if x == 0 && y == 0 {
            assert(x * x + y * y == 0) by (nonlinear_arith)
                requires
                    x == 0,
                    y == 0,
            ;
        }
    }
}

/// Hysteresis: with the dominant axis fixed, a weaker axis below 45% of it never counts, and one
/// at 60% or more always does, whatever was emitted before.
pub proof fn lemma_diagonal_hysteresis(secondary: int, dominant: int, was_active: bool)
    requires
        0 < dominant,
        0 <= secondary,
    ensures
        secondary * 1000 < dominant * 450 ==> !secondary_active(secondary, dominant, was_active),
        secondary * 1000 >= dominant * 600 ==> secondary_active(secondary, dominant, was_active),
{
}

/// Samples are bounded before quantization: a sample beyond the stick's scale quantizes as the
/// same sample clamped to the scale.
pub proof fn lemma_samples_are_bounded(sample: MobileStickSample, previous: MobileMovementIntent)
    ensures
        quantized(sample, previous) == quantized(
            MobileStickSample { x: clamp_axis(sample.x) as i32, y: clamp_axis(sample.y) as i32 },
            previous,
        ),
{
}

/// Outside the dead zone, with a sample within the stick's scale: the dominant axis (ties go to
/// `x`) always moves the player in its own direction, and the other axis moves it only at a
/// share of the dominant axis that depends on that axis's own previous state: 60% when it was
/// off, 45% when it was on. World `z` is screen `-y`.
pub proof fn lemma_hysteresis_follows_each_axis(sample: MobileStickSample, previous: MobileMovementIntent)
    requires
        -1000 <= sample.x <= 1000,
        -1000 <= sample.y <= 1000,
        sample.x * sample.x + sample.y * sample.y > 420 * 420,
    ensures
        ({
            let x: int = sample.x as int;
            let z: int = -(sample.y as int);
            let ax: int = if x < 0 { -x } else { x };
            let az: int = if z < 0 { -z } else { z };
            let q = quantized(sample, previous);
            &&& ax >= az ==> q.x == (if x > 0 { 1i8 } else { -1i8 })
            &&& ax >= az ==> (q.z != 0 <==> az * 1000 >= ax * (if previous.z != 0 { 450int } else { 600int }))
            &&& ax >= az && q.z != 0 ==> q.z == (if z > 0 { 1i8 } else { -1i8 })
            &&& az > ax ==> q.z == (if z > 0 { 1i8 } else { -1i8 })
            &&& az > ax ==> (q.x != 0 <==> ax * 1000 >= az * (if previous.x != 0 { 450int } else { 600int }))
            &&& az > ax && q.x != 0 ==> q.x == (if x > 0 { 1i8 } else { -1i8 })
        }),
{
    assert(clamp_axis(sample.x) == sample.x as int);
    assert(clamp_axis(sample.y) == sample.y as int);
    assert(!in_dead_zone(sample));
}

/// Inside the radial dead zone of a sample within the stick's scale the player stops.
pub proof fn lemma_dead_zone_stops(sample: MobileStickSample, previous: MobileMovementIntent)
    requires
        -1000 <= sample.x <= 1000,
        -1000 <= sample.y <= 1000,
        sample.x * sample.x + sample.y * sample.y <= 420 * 420,
    ensures
        quantized(sample, previous) == (MobileMovementIntent { x: 0, z: 0 }),
{
    assert(clamp_axis(sample.x) == sample.x as int);
    assert(clamp_axis(sample.y) == sample.y as int);
}

} // verus!