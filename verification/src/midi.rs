//! Translation of key events into MIDI notes and velocities.
//!
//! The note number is a fixed linear offset that aligns the keybed's middle
//! C with MIDI middle C.  The velocity maps the measured travel time through
//! a configurable monotonic response curve: the faster the press, the louder
//! the note.

use vstd::arithmetic::div_mod::{
    lemma_div_decreases, lemma_div_is_ordered, lemma_div_multiples_vanish_fancy,
    lemma_div_pos_is_pos,
};
use vstd::arithmetic::mul::{lemma_mul_inequality, lemma_mul_nonnegative};
use vstd::arithmetic::power::{lemma_pow0, lemma_pow_positive, pow};
use vstd::prelude::*;

verus! {

/// MIDI note number of middle C.
pub const MIDDLE_C_NOTE: u8 = 60;

/// Keybed index of the key that plays middle C.
pub const MIDDLE_C_KEY_INDEX: u8 = 24;

/// Shortest travel time the velocity mapping distinguishes, in milliseconds.
pub const MIN_TRAVEL_MS: u8 = 1;

/// Longest travel time the velocity mapping distinguishes, in milliseconds.
pub const MAX_TRAVEL_MS: u8 = 80;

/// MIDI channel the instrument plays on.
pub const MIDI_CHANNEL: u8 = 0;

/// Status byte of a note-on message.
pub const MIDI_NOTE_ON: u8 = 0x90 + MIDI_CHANNEL;

/// Status byte of a note-off message.
pub const MIDI_NOTE_OFF: u8 = 0x80 + MIDI_CHANNEL;

/// Status byte of a controller change.
pub const MIDI_CC: u8 = 0xB0 + MIDI_CHANNEL;

/// Controller number of the sustain pedal.
pub const MIDI_SUSTAIN_PEDAL: u8 = 0x40;

/// One event for the MIDI sink, produced 1:1 from key and pedal input.
#[derive(Copy, Clone, PartialEq, Eq, Structural, Debug)]
pub enum MidiEvent {
    /// A note starts sounding.
    NoteOn { note: u8, velocity: u8 },
    /// A note stops sounding.
    NoteOff { note: u8 },
    /// The sustain pedal goes down.
    SustainOn,
    /// The sustain pedal comes up.
    SustainOff,
}

/// The velocity response curve, always monotonic non-decreasing on `[0,1]`
/// with value 0 at 0 and 1 at 1.
#[derive(Copy, Clone, PartialEq, Eq, Structural, Debug)]
pub enum Curve {
    /// The identity response.
    Linear,
    /// The power response `n^p`: fast presses get disproportionately higher
    /// velocity.
    Power(u8),
}

/// Exponents that keep the power curve a valid response curve: at least 1
/// so that the curve is 0 at 0, at most 10 as a sanity cap.
pub open spec fn curve_wf(c: Curve) -> bool {
    c matches Curve::Power(p) ==> 1 <= p <= 10
}

/// The curve's value at `x / 79`, as the numerator over `curve_den`.
pub open spec fn curve_num(c: Curve, x: int) -> int {
    match c {
        Curve::Linear => x,
        Curve::Power(p) => pow(x, p as nat),
    }
}

/// The denominator of the curve's value: 79 raised to the curve's degree.
pub open spec fn curve_den(c: Curve) -> int {
    match c {
        Curve::Linear => 79,
        Curve::Power(p) => pow(79, p as nat),
    }
}

/// Travel time clamped to the range the mapping distinguishes.
pub open spec fn clamped_travel(travel_ms: u8) -> int {
    if travel_ms < MIN_TRAVEL_MS {
        MIN_TRAVEL_MS as int
    } else if travel_ms > MAX_TRAVEL_MS {
        MAX_TRAVEL_MS as int
    } else {
        travel_ms as int
    }
}

/// Division rounded to the nearest integer.
pub open spec fn rounded_div(num: int, den: int) -> int
    recommends
        den > 0,
{
    (num + den / 2) / den
}

/// The velocity mapping: clamp the travel time to `[1, 80]`, normalize to
/// `[0, 1]`, shape through the curve, then scale so that the fastest press
/// gives 127 and the slowest gives 1.
pub open spec fn spec_velocity(travel_ms: u8, c: Curve) -> int {
    127 - rounded_div(126 * curve_num(c, clamped_travel(travel_ms) - 1), curve_den(c))
}

/// Raising both of two ordered non-negative bases to the same power keeps
/// the order, and the powers stay non-negative.
proof fn lemma_pow_base_monotone(a: int, b: int, e: nat)
    requires
        0 <= a <= b,
    ensures
        0 <= pow(a, e) <= pow(b, e),
    decreases e,
{
    if e == 0 {
        lemma_pow0(a);
        lemma_pow0(b);
    } else {
        lemma_pow_base_monotone(a, b, (e - 1) as nat);
        let pa = pow(a, (e - 1) as nat);
        let pb = pow(b, (e - 1) as nat);
        assert(pow(a, e) == a * pa && pow(b, e) == b * pb) by {
            reveal_with_fuel(pow, 2);
        };
        lemma_mul_nonnegative(a, pa);
        lemma_mul_inequality(a, b, pa);
        lemma_mul_inequality(pa, pb, b);
        assert(a * pa <= b * pa && pa * b <= pb * b);
        assert(b * pa == pa * b && pb * b == b * pb) by (nonlinear_arith);
        assert(pow(a, e) <= pow(b, e));
    }
}

/// A non-negative numerator of at most `126 * den` lands in `[0, 126]`
/// under rounded division by `den`.
proof fn lemma_rounded_div_bounds(num: int, den: int)
    requires
        0 < den,
        0 <= num <= 126 * den,
    ensures
        0 <= rounded_div(num, den) <= 126,
{
    lemma_div_pos_is_pos(den, 2);
    if den > 1 {
        lemma_div_decreases(den, 2);
    }
    lemma_div_pos_is_pos(num + den / 2, den);
    lemma_div_is_ordered(num + den / 2, 126 * den + den / 2, den);
    lemma_div_multiples_vanish_fancy(126, den / 2, den);
    assert(den * 126 + den / 2 == 126 * den + den / 2);
}

/// A valid curve keeps its numerator between 0 and its denominator over the
/// normalized travel range, and its denominator positive.
proof fn lemma_curve_bounds(c: Curve, x: int)
    requires
        curve_wf(c),
        0 <= x <= 79,
    ensures
        0 < curve_den(c),
        0 <= curve_num(c, x) <= curve_den(c),
{
    match c {
        Curve::Linear => {},
        Curve::Power(p) => {
            lemma_pow_positive(79, p as nat);
            lemma_pow_base_monotone(x, 79, p as nat);
        },
    }
}

/// The velocity is strictly positive and at most 127, for every travel time
/// and every valid curve.
pub proof fn lemma_velocity_in_range(travel_ms: u8, c: Curve)
    requires
        curve_wf(c),
    ensures
        1 <= spec_velocity(travel_ms, c) <= 127,
{
    let x = clamped_travel(travel_ms) - 1;
    lemma_curve_bounds(c, x);
    lemma_mul_inequality(curve_num(c, x), curve_den(c), 126);
    lemma_rounded_div_bounds(126 * curve_num(c, x), curve_den(c));
}

/// The velocity never increases as the travel time grows: a faster press
/// sounds at least as loud.
pub proof fn lemma_velocity_monotone(t1: u8, t2: u8, c: Curve)
    requires
        curve_wf(c),
        t1 <= t2,
    ensures
        spec_velocity(t1, c) >= spec_velocity(t2, c),
{
    let x1 = clamped_travel(t1) - 1;
    let x2 = clamped_travel(t2) - 1;
    lemma_curve_bounds(c, x1);
    lemma_curve_bounds(c, x2);
    match c {
        Curve::Linear => {},
        Curve::Power(p) => {
            lemma_pow_base_monotone(x1, x2, p as nat);
        },
    }
    lemma_mul_inequality(curve_num(c, x1), curve_num(c, x2), 126);
    let den = curve_den(c);
    lemma_div_pos_is_pos(den, 2);
    lemma_div_is_ordered(126 * curve_num(c, x1) + den / 2, 126 * curve_num(c, x2) + den / 2, den);
}

/// `base` raised to `exp`, within the range the velocity mapping needs.
fn pow_u64(base: u64, exp: u8) -> (r: u64)
    requires
        base <= 79,
        exp <= 10,
    ensures
        r as int == pow(base as int, exp as nat),
{
    proof {
        reveal_with_fuel(pow, 11);
        assert(pow(79, 10) == 9468276082626847201);
    }
    let mut r: u64 = 1;
    let mut k: u8 = 0;
    while k < exp
        invariant
            base <= 79,
            exp <= 10,
            k <= exp,
            r as int == pow(base as int, k as nat),
            pow(79, 10) == 9468276082626847201,
        decreases exp - k,
    {
        proof {
            lemma_pow_base_monotone(base as int, 79, (k + 1) as nat);
            lemma_pow_positive(79, (k + 1) as nat);
            vstd::arithmetic::power::lemma_pow_increases(79, (k + 1) as nat, 10);
            assert(pow(base as int, (k + 1) as nat) == (base as int) * pow(base as int, k as nat))
                by {
                reveal_with_fuel(pow, 2);
            };
        }
        r = r * base;
        k = k + 1;
    }
    r
}

/// MIDI note number of a key: a fixed linear offset aligning the keybed's
/// middle C (index 24) with MIDI note 60.
pub fn note(key: u8) -> (n: u8)
    requires
        key as int + MIDDLE_C_NOTE - MIDDLE_C_KEY_INDEX <= 255,
    ensures
        n as int == key as int + MIDDLE_C_NOTE - MIDDLE_C_KEY_INDEX,
{
    key + (MIDDLE_C_NOTE - MIDDLE_C_KEY_INDEX)
}

/// MIDI velocity of a press with the given travel time, shaped by the
/// given response curve; always in `[1, 127]`.
pub fn velocity(travel_ms: u8, curve: &Curve) -> (v: u8)
    requires
        curve_wf(*curve),
    ensures
        v as int == spec_velocity(travel_ms, *curve),
        1 <= v <= 127,
{
    let clamped: u8 = if travel_ms < MIN_TRAVEL_MS {
        MIN_TRAVEL_MS
    } else if travel_ms > MAX_TRAVEL_MS {
        MAX_TRAVEL_MS
    } else {
        travel_ms
    };
    let x: u64 = (clamped - 1) as u64;
    let num_part: u64;
    let den: u64;
    match curve {
        Curve::Linear => {
            num_part = x;
            den = 79;
        },
        Curve::Power(p) => {
            num_part = pow_u64(x, *p);
            den = pow_u64(79, *p);
        },
    }
    proof {
        lemma_curve_bounds(*curve, x as int);
        lemma_mul_inequality(curve_num(*curve, x as int), curve_den(*curve), 126);
        lemma_rounded_div_bounds(126 * curve_num(*curve, x as int), curve_den(*curve));
    }
    let num: u128 = 126u128 * (num_part as u128);
    let den_wide: u128 = den as u128;
    let q: u128 = (num + den_wide / 2) / den_wide;
    (127 - q) as u8
}

/// Translates a pedal edge into its sustain event: a rising edge presses
/// the pedal down, a falling edge releases it.
pub fn sustain_event(pressed: bool) -> (e: MidiEvent)
    ensures
        e == if pressed {
            MidiEvent::SustainOn
        } else {
            MidiEvent::SustainOff
        },
{
    if pressed {
        MidiEvent::SustainOn
    } else {
        MidiEvent::SustainOff
    }
}

/// The three wire bytes of a MIDI event, with note and velocity clamped to
/// the 7 bits MIDI carries.
pub open spec fn spec_midi_bytes(e: MidiEvent) -> Seq<u8> {
    match e {
        MidiEvent::NoteOn { note, velocity } => seq![
            MIDI_NOTE_ON,
            if note > 127 {
                127u8
            } else {
                note
            },
            if velocity > 127 {
                127u8
            } else {
                velocity
            },
        ],
        MidiEvent::NoteOff { note } => seq![
            MIDI_NOTE_OFF,
            if note > 127 {
                127u8
            } else {
                note
            },
            0u8,
        ],
        MidiEvent::SustainOn => seq![MIDI_CC, MIDI_SUSTAIN_PEDAL, 0x7Fu8],
        MidiEvent::SustainOff => seq![MIDI_CC, MIDI_SUSTAIN_PEDAL, 0u8],
    }
}

/// Serializes a MIDI event to the three bytes the sink writes.
pub fn midi_bytes(e: &MidiEvent) -> (bytes: Vec<u8>)
    ensures
        bytes@ == spec_midi_bytes(*e),
{
    let mut bytes: Vec<u8> = Vec::new();
    match e {
        MidiEvent::NoteOn { note, velocity } => {
            bytes.push(MIDI_NOTE_ON);
            bytes.push(if *note > 127 {
                127
            } else {
                *note
            });
            bytes.push(if *velocity > 127 {
                127
            } else {
                *velocity
            });
        },
        MidiEvent::NoteOff { note } => {
            bytes.push(MIDI_NOTE_OFF);
            bytes.push(if *note > 127 {
                127
            } else {
                *note
            });
            bytes.push(0);
        },
        MidiEvent::SustainOn => {
            bytes.push(MIDI_CC);
            bytes.push(MIDI_SUSTAIN_PEDAL);
            bytes.push(0x7F);
        },
        MidiEvent::SustainOff => {
            bytes.push(MIDI_CC);
            bytes.push(MIDI_SUSTAIN_PEDAL);
            bytes.push(0);
        },
    }
    assert(bytes@ =~= spec_midi_bytes(*e));
    bytes
}

} // verus!
