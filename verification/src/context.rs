//! What the program was started with.

use vstd::prelude::*;
use crate::config::DEFAULT_MIDI_CHANNEL;

verus! {

/// The settings of one run: the channel and output device to use, the file of
/// the performance, and whether to print what comes in.
pub struct Context {
    pub midi_channel: u8,
    pub midi_output: String,
    pub performance: String,
    pub debug: bool,
}

impl Context {
    /// The settings of a run that was given none: the default channel, no output
    /// device, no performance file, no debugging.
    pub fn new() -> (r: Context)
        ensures
            r.midi_channel == DEFAULT_MIDI_CHANNEL,
            r.midi_output@ == Seq::<char>::empty(),
            r.performance@ == Seq::<char>::empty(),
            !r.debug,
    {
        Context {
            midi_channel: DEFAULT_MIDI_CHANNEL,
            midi_output: String::new(),
            performance: String::new(),
            debug: false,
        }
    }
}

} // verus!
