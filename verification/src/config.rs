//! Constants shared by the whole engine.

use vstd::prelude::*;

verus! {

/// Channel an instrument or controller gets when none is given (1-based).
pub const DEFAULT_MIDI_CHANNEL: u8 = 1;

/// Velocity of a note whose step names none.
pub const DEFAULT_VELOCITY: u8 = 100;

/// Fine ticks that one pulse of the external clock is multiplied into.
pub const CLOCK_MULTIPLIER: u64 = 84;

/// Pulses of the external clock per quarter note.
pub const DEFAULT_PARTS_PER_QUARTER: u64 = 24;

/// Fine ticks in one measure of four quarter notes.
pub const TICKS_PER_MEASURE: u64 = CLOCK_MULTIPLIER * DEFAULT_PARTS_PER_QUARTER * 4;

/// Events per measure of a sequence that names no rate: quarter notes.
pub const DEFAULT_PLAY_RATE: u8 = 4;

} // verus!
