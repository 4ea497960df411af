//! The per-instrument scheduler: a cursor over one sequence that turns fine
//! ticks into note and control messages, and keeps the deadline of every note
//! it has struck.

use std::collections::HashMap;
use vstd::prelude::*;
use crate::config::{DEFAULT_PLAY_RATE, DEFAULT_VELOCITY, TICKS_PER_MEASURE};
use crate::midi::{
    control_change, midi_note_value, note_off, note_on, parse_midi_note, program_change,
    DeviceManager, DeviceWriteView, OutMessage,
};
use crate::models::{
    Instrument, InstrumentView, ModDevice, ModDeviceView, SequenceStep, SequenceView, StepView,
    mod_devices_view, ticks_for_rate,
};

verus! {

// What a step says --------------------------------------------------------------------------------

impl StepView {
    /// The note number of each pitch token of the step, in order.
    pub open spec fn pitches(self) -> Seq<u8> {
        match self.pitch {
            Some(tokens) => tokens.map_values(|t: Seq<char>| midi_note_value(t) as u8),
            None => Seq::empty(),
        }
    }

    /// The velocity the step's notes are struck at: its own token's value, or the
    /// default velocity.
    pub open spec fn strike_velocity(self) -> u8 {
        match self.velocity {
            Some(t) => midi_note_value(t) as u8,
            None => DEFAULT_VELOCITY,
        }
    }

    /// The values the step sets the instrument's controls to, in order.
    pub open spec fn control_values(self) -> Seq<u8> {
        match self.data {
            Some(d) => d,
            None => Seq::empty(),
        }
    }

    /// The messages the step sends to its instrument's device on `channel`: the
    /// program change, if any, then a note-on for each pitch.
    pub open spec fn messages(self, channel: u8) -> Seq<OutMessage> {
        let program = match self.program {
            Some(p) => seq![OutMessage::ProgramChange { channel, program: p }],
            None => Seq::empty(),
        };
        program + note_ons(channel, self.pitches(), self.strike_velocity())
    }
}

impl InstrumentView {
    /// The 0-based channel the instrument's messages carry.
    pub open spec fn wire_channel(self) -> u8 {
        (self.channel - 1) as u8
    }

    /// The instrument's control bindings, in order.
    pub open spec fn controls(self) -> Seq<ModDeviceView> {
        match self.data {
            Some(d) => d,
            None => Seq::empty(),
        }
    }
}

/// A note-off at velocity 0 for each pitch, in order.
pub open spec fn note_offs(channel: u8, pitches: Seq<u8>) -> Seq<OutMessage> {
    pitches.map_values(|p: u8| OutMessage::NoteOff { channel, pitch: p, velocity: 0 })
}

/// A note-on at `velocity` for each pitch, in order.
pub open spec fn note_ons(channel: u8, pitches: Seq<u8>, velocity: u8) -> Seq<OutMessage> {
    pitches.map_values(|p: u8| OutMessage::NoteOn { channel, pitch: p, velocity })
}

/// One batch per control value that has a binding at its position: a control
/// change of the binding's control to that value, for the binding's device and
/// channel.
pub open spec fn control_writes(controls: Seq<ModDeviceView>, values: Seq<u8>) -> Seq<
    DeviceWriteView,
> {
    Seq::new(
        if controls.len() <= values.len() { controls.len() } else { values.len() },
        |i: int|
            DeviceWriteView {
                device: controls[i].device,
                messages: seq![
                    OutMessage::ControlChange {
                        channel: (controls[i].channel - 1) as u8,
                        control: controls[i].control,
                        value: values[i],
                    },
                ],
            },
    )
}

/// A batch for `device`, unless there is nothing to send.
pub open spec fn batch(device: Seq<char>, messages: Seq<OutMessage>) -> Seq<DeviceWriteView> {
    if messages.len() > 0 {
        seq![DeviceWriteView { device, messages }]
    } else {
        Seq::empty()
    }
}

// The active notes --------------------------------------------------------------------------------

/// Whether `pitch` is listed: it sounds, and, where only expiring notes are
/// asked for, it has one tick left.
pub open spec fn listed(notes: Map<u8, usize>, pitch: u8, expiring: bool) -> bool {
    notes.contains_key(pitch) && (expiring ==> notes[pitch] == 1)
}

/// The listed pitches below `bound`, in ascending order.
pub open spec fn pitches_below(notes: Map<u8, usize>, bound: nat, expiring: bool) -> Seq<u8>
    decreases bound,
{
    if bound == 0 {
        Seq::empty()
    } else {
        let rest = pitches_below(notes, (bound - 1) as nat, expiring);
        if bound <= 256 && listed(notes, (bound - 1) as u8, expiring) {
            rest.push((bound - 1) as u8)
        } else {
            rest
        }
    }
}

/// The pitches whose last tick has come, in ascending order.
pub open spec fn expiring(notes: Map<u8, usize>) -> Seq<u8> {
    pitches_below(notes, 256, true)
}

/// All pitches that sound, in ascending order.
pub open spec fn sounding(notes: Map<u8, usize>) -> Seq<u8> {
    pitches_below(notes, 256, false)
}

/// The notes one tick later: a note with one tick left is gone, every other
/// note with ticks left has one fewer.
pub open spec fn aged(notes: Map<u8, usize>) -> Map<u8, usize> {
    Map::new(
        |p: u8| notes.contains_key(p) && notes[p] != 1,
        |p: u8| if notes[p] > 0 { (notes[p] - 1) as usize } else { 0usize },
    )
}

/// The notes after each of `pitches` was struck for `ticks`: a pitch that
/// already sounded starts over with the new length.
pub open spec fn struck(notes: Map<u8, usize>, pitches: Seq<u8>, ticks: usize) -> Map<u8, usize> {
    Map::new(
        |p: u8| notes.contains_key(p) || pitches.contains(p),
        |p: u8| if pitches.contains(p) { ticks } else { notes[p] },
    )
}

// Player Clock Result -----------------------------------------------------------------------------

/// What one tick did: whether it struck a note, and whether the sequence has
/// run its whole length.
#[derive(Clone, Copy, Debug, PartialEq, Eq, Structural)]
pub struct PlayerClockResult {
    pub note_was_played: bool,
    pub sequence_ended: bool,
}

impl PlayerClockResult {
    /// Nothing struck, nothing ended.
    pub fn new() -> (r: PlayerClockResult)
        ensures
            r == (PlayerClockResult { note_was_played: false, sequence_ended: false }),
    {
        PlayerClockResult { note_was_played: false, sequence_ended: false }
    }
}

// Sequence Player ---------------------------------------------------------------------------------

/// The playback state of one instrument.
pub struct SequencePlayer {
    pub instrument: Instrument,
    pub seq_name: String,
    step_index: usize,
    clock_count: usize,
    pub bar_count: usize,
    note_on_map: HashMap<u8, usize>,
}

/// A player as the contracts see it: the instrument and the name of the sequence
/// it is bound to, the step cursor, the ticks since the bar began, the bars
/// played, and each sounding pitch with the ticks it has left.
pub struct PlayerView {
    pub instrument: InstrumentView,
    pub seq_name: Seq<char>,
    pub step_index: nat,
    pub clock_count: nat,
    pub bar_count: nat,
    pub notes: Map<u8, usize>,
}

impl View for SequencePlayer {
    type V = PlayerView;

    closed spec fn view(&self) -> PlayerView {
        PlayerView {
            instrument: self.instrument@,
            seq_name: self.seq_name@,
            step_index: self.step_index as nat,
            clock_count: self.clock_count as nat,
            bar_count: self.bar_count as nat,
            notes: self.note_on_map@,
        }
    }
}

impl PlayerView {
    /// A player bound to `seq_name` that has played nothing yet.
    pub open spec fn fresh(instrument: InstrumentView, seq_name: Seq<char>) -> PlayerView {
        PlayerView {
            instrument,
            seq_name,
            step_index: 0,
            clock_count: 0,
            bar_count: 0,
            notes: Map::empty(),
        }
    }

    /// The sequence the player is bound to, where the instrument has one of that
    /// name.
    pub open spec fn sequence(self) -> Option<SequenceView> {
        self.instrument.find_sequence(self.seq_name)
    }

    /// Whether this tick falls on a step boundary with a step left to play.
    pub open spec fn step_due(self) -> bool {
        match self.sequence() {
            Some(seq) => self.clock_count % seq.ticks_per_step() == 0 && self.step_index
                < seq.steps.len(),
            None => false,
        }
    }

    /// The step this tick plays: none between step boundaries, past the end, on a
    /// rest, or with no sequence bound.
    pub open spec fn due_step(self) -> Option<StepView> {
        if self.step_due() {
            self.sequence()->0.steps[self.step_index as int]
        } else {
            None
        }
    }

    /// Fine ticks a note struck this tick will sound.
    pub open spec fn strike_ticks(self) -> usize {
        match self.due_step() {
            Some(step) => step.duration_ticks(self.sequence()->0.play_rate()) as usize,
            None => 0,
        }
    }

    /// The pitches struck this tick, in order.
    pub open spec fn strike_pitches(self) -> Seq<u8> {
        match self.due_step() {
            Some(step) => step.pitches(),
            None => Seq::empty(),
        }
    }

    /// The note-offs this tick sends: one for each note whose last tick has come.
    pub open spec fn clock_note_offs(self) -> Seq<OutMessage> {
        note_offs(self.instrument.wire_channel(), expiring(self.notes))
    }

    /// The messages of the step this tick plays.
    pub open spec fn clock_step_messages(self) -> Seq<OutMessage> {
        match self.due_step() {
            Some(step) => step.messages(self.instrument.wire_channel()),
            None => Seq::empty(),
        }
    }

    /// The control batches of the step this tick plays.
    pub open spec fn clock_control_writes(self) -> Seq<DeviceWriteView> {
        match self.due_step() {
            Some(step) => control_writes(self.instrument.controls(), step.control_values()),
            None => Seq::empty(),
        }
    }

    /// Everything one tick queues, in order: the note-offs that are due, as one
    /// batch; the control changes of the step, a batch each; the program change
    /// and note-ons of the step, as one batch.
    pub open spec fn clock_writes(self) -> Seq<DeviceWriteView> {
        batch(self.instrument.device, self.clock_note_offs()) + self.clock_control_writes()
            + batch(self.instrument.device, self.clock_step_messages())
    }

    /// The player one tick later.
    pub open spec fn clock_next(self) -> PlayerView {
        PlayerView {
            step_index: if self.step_due() {
                self.step_index + 1
            } else {
                self.step_index
            },
            clock_count: self.clock_count + 1,
            notes: struck(aged(self.notes), self.strike_pitches(), self.strike_ticks()),
            ..self
        }
    }

    /// What one tick reports: a note was played if the step it plays has a pitch;
    /// the sequence has ended once the ticks of all its steps have gone by.
    pub open spec fn clock_result(self) -> PlayerClockResult {
        PlayerClockResult {
            note_was_played: self.strike_pitches().len() > 0,
            sequence_ended: match self.sequence() {
                Some(seq) => self.clock_count + 1 >= seq.ticks_per_step() * seq.steps.len(),
                None => false,
            },
        }
    }

    /// What silencing the player queues: one batch with a note-off for every
    /// sounding pitch, unless none sounds.
    pub open spec fn flush_writes(self) -> Seq<DeviceWriteView> {
        batch(
            self.instrument.device,
            note_offs(self.instrument.wire_channel(), sounding(self.notes)),
        )
    }

    /// The player with no note sounding.
    pub open spec fn flushed(self) -> PlayerView {
        PlayerView { notes: Map::empty(), ..self }
    }

    /// The player at the start of its next bar: cursor and ticks at zero, one bar
    /// more, no note sounding.
    pub open spec fn next_bar_next(self) -> PlayerView {
        PlayerView {
            step_index: 0,
            clock_count: 0,
            bar_count: self.bar_count + 1,
            notes: Map::empty(),
            ..self
        }
    }

    /// The player with cursor, ticks and bars at zero. Sounding notes keep their
    /// deadlines.
    pub open spec fn reset_next(self) -> PlayerView {
        PlayerView { step_index: 0, clock_count: 0, bar_count: 0, ..self }
    }
}

impl SequencePlayer {
    /// A player for `inst`, bound to the sequence called `seq_name`, that has
    /// played nothing yet.
    pub fn new(inst: Instrument, seq_name: String) -> (r: SequencePlayer)
        ensures
            r@ == PlayerView::fresh(inst@, seq_name@),
    {
        SequencePlayer {
            instrument: inst,
            seq_name: seq_name,
            step_index: 0,
            clock_count: 0,
            bar_count: 0,
            note_on_map: HashMap::new(),
        }
    }

    /// The instrument the player plays.
    pub fn instrument(&self) -> (r: &Instrument)
        ensures
            r@ == self@.instrument,
    {
        &self.instrument
    }

    /// The name of the sequence the player is bound to.
    pub fn seq_name(&self) -> (r: &String)
        ensures
            r@ == self@.seq_name,
    {
        &self.seq_name
    }

    /// The bars the player has played since it was made or reset.
    pub fn bar_count(&self) -> (r: usize)
        ensures
            r == self@.bar_count,
    {
        self.bar_count
    }

    /// Binds the player to the sequence called `seq_name`. Cursor, counters and
    /// sounding notes stay as they are.
    pub fn bind(&mut self, seq_name: String)
        ensures
            final(self)@ == (PlayerView { seq_name: seq_name@, ..old(self)@ }),
    {
        self.seq_name = seq_name;
    }

    /// Gives the player a new definition of its instrument. Cursor, counters and
    /// sounding notes stay as they are.
    pub fn set_instrument(&mut self, inst: Instrument)
        ensures
            final(self)@ == (PlayerView { instrument: inst@, ..old(self)@ }),
    {
        self.instrument = inst;
    }

    /// The step cursor: the index of the next step to play.
    pub fn step_index(&self) -> (r: usize)
        ensures
            r == self@.step_index,
    {
        self.step_index
    }

    /// The ticks since the bar began.
    pub fn clock_count(&self) -> (r: usize)
        ensures
            r == self@.clock_count,
    {
        self.clock_count
    }

    /// The ticks `pitch` has left, if it sounds.
    pub fn remaining(&self, pitch: u8) -> (r: Option<usize>)
        ensures
            r == (if self@.notes.contains_key(pitch) {
                Some(self@.notes[pitch])
            } else {
                None
            }),
    {
        match self.note_on_map.get(&pitch) {
            Some(t) => Some(*t),
            None => None,
        }
    }

    /// Puts cursor, ticks and bars back to zero. Sounding notes keep their
    /// deadlines.
    pub fn reset(&mut self)
        ensures
            final(self)@ == old(self)@.reset_next(),
    {
        self.step_index = 0;
        self.clock_count = 0;
        self.bar_count = 0;
    }
}

// One tick, piece by piece ------------------------------------------------------------------------

/// The notes while a tick is being counted off, with the pitches below `bound`
/// done.
pub open spec fn aged_below(notes: Map<u8, usize>, bound: nat) -> Map<u8, usize> {
    Map::new(
        |p: u8| notes.contains_key(p) && !(p < bound && notes[p] == 1),
        |p: u8|
            if p < bound && notes[p] > 0 {
                (notes[p] - 1) as usize
            } else {
                notes[p]
            },
    )
}

/// Counts one tick off every note's deadline; gives the note-offs for the notes
/// whose deadline has come, in ascending order of pitch, and takes those notes
/// out.
fn age_notes(notes: &mut HashMap<u8, usize>, channel: u8) -> (offs: Vec<OutMessage>)
    ensures
        final(notes)@ == aged(old(notes)@),
        offs@ == note_offs(channel, expiring(old(notes)@)),
{
    let ghost before = notes@;
    let mut offs: Vec<OutMessage> = Vec::new();
    let mut i: usize = 0;
    assert(notes@ =~= aged_below(before, 0));
    assert(offs@ =~= note_offs(channel, pitches_below(before, 0, true)));
    while i < 256
        invariant
            i <= 256,
            notes@ == aged_below(before, i as nat),
            offs@ == note_offs(channel, pitches_below(before, i as nat, true)),
        decreases 256 - i,
    {
        let p: u8 = i as u8;
        let left: Option<usize> = match notes.get(&p) {
            Some(t) => Some(*t),
            None => None,
        };
        let ghost listed_before = pitches_below(before, i as nat, true);
        match left {
            Some(t) => {
                if t == 1 {
                    offs.push(note_off(channel, p, 0));
                    notes.remove(&p);
                    assert(offs@ =~= note_offs(channel, listed_before.push(p)));
                } else if t > 1 {
                    notes.insert(p, t - 1);
                }
            },
            None => {},
        }
        assert(notes@ =~= aged_below(before, (i + 1) as nat));
        i += 1;
    }
    assert(notes@ =~= aged(before));
    offs
}

/// Strikes the notes of `step` on `channel`: gives the program change, if any,
/// and a note-on for each pitch, and sets each pitch's deadline `ticks` ahead.
fn strike_step(notes: &mut HashMap<u8, usize>, step: &SequenceStep, channel: u8, ticks: usize) -> (messages:
    Vec<OutMessage>)
    ensures
        final(notes)@ == struck(old(notes)@, step@.pitches(), ticks),
        messages@ == step@.messages(channel),
{
    let ghost before = notes@;
    let mut messages: Vec<OutMessage> = Vec::new();
    match step.program {
        Some(p) => {
            messages.push(program_change(channel, p));
        },
        None => {},
    }
    let ghost head = messages@;
    let velocity: u8 = match &step.velocity {
        Some(token) => parse_midi_note(token),
        None => DEFAULT_VELOCITY,
    };
    match &step.pitch {
        Some(tokens) => {
            let ghost pitches = step@.pitches();
            let mut i: usize = 0;
            assert(notes@ =~= struck(before, pitches.take(0), ticks));
            assert(messages@ =~= head + note_ons(channel, pitches.take(0), velocity));
            while i < tokens.len()
                invariant
                    i <= tokens.len(),
                    pitches == step@.pitches(),
                    pitches.len() == tokens.len(),
                    step.pitch == Some(*tokens),
                    notes@ == struck(before, pitches.take(i as int), ticks),
                    messages@ == head + note_ons(channel, pitches.take(i as int), velocity),
                decreases tokens.len() - i,
            {
                let p = parse_midi_note(&tokens[i]);
                assert(pitches[i as int] == p);
                messages.push(note_on(channel, p, velocity));
                notes.insert(p, ticks);
                proof {
                    let done = pitches.take(i as int);
                    let more = pitches.take(i + 1);
                    assert(more =~= done.push(p));
                    assert forall|q: u8| more.contains(q) <==> (done.contains(q) || q == p) by {
                        if done.contains(q) {
                            let k = choose|k: int| 0 <= k < done.len() && done[k] == q;
                            assert(more[k] == q);
                        }
                        if q == p {
                            assert(more[i as int] == q);
                        }
                    }
                    assert(notes@ =~= struck(before, more, ticks));
                    assert(messages@ =~= head + note_ons(channel, more, velocity));
                }
                i += 1;
            }
            assert(pitches.take(i as int) =~= pitches);
        },
        None => {
            assert(notes@ =~= struck(before, step@.pitches(), ticks));
            assert(messages@ =~= head + note_ons(channel, step@.pitches(), velocity));
        },
    }
    messages
}

/// Queues a control change for each value of `values` that has a binding at its
/// position in `controls`.
fn send_controls(device_manager: &mut DeviceManager, controls: &Vec<ModDevice>, values: &Vec<u8>)
    requires
        forall|i: int| 0 <= i < controls.len() ==> (#[trigger] controls@[i]).channel >= 1,
    ensures
        final(device_manager)@ == old(device_manager)@ + control_writes(
            mod_devices_view(controls@),
            values@,
        ),
{
    let ghost before = device_manager@;
    let ghost writes = control_writes(mod_devices_view(controls@), values@);
    let n: usize = if controls.len() <= values.len() { controls.len() } else { values.len() };
    let mut i: usize = 0;
    assert(device_manager@ =~= before + writes.take(0));
    while i < n
        invariant
            i <= n,
            n == writes.len(),
            n <= controls.len(),
            n <= values.len(),
            writes == control_writes(mod_devices_view(controls@), values@),
            forall|i: int| 0 <= i < controls.len() ==> (#[trigger] controls@[i]).channel >= 1,
            device_manager@ == before + writes.take(i as int),
        decreases n - i,
    {
        let control = &controls[i];
        let message = control_change(control.channel - 1, control.control, values[i]);
        let mut messages: Vec<OutMessage> = Vec::new();
        messages.push(message);
        device_manager.write_messages(control.device.clone(), messages);
        proof {
            assert(mod_devices_view(controls@)[i as int] == control@);
            assert(writes[i as int].device == control.device@);
            assert(writes[i as int].messages =~= seq![message]);
            assert(messages@ =~= seq![message]);
            assert(writes.take(i + 1) =~= writes.take(i as int).push(writes[i as int]));
            assert(device_manager@ =~= before + writes.take(i + 1));
        }
        i += 1;
    }
    assert(writes.take(i as int) =~= writes);
}

/// Fine ticks between two events at `rate` events per measure.
fn rate_ticks(rate: u8) -> (r: usize)
    requires
        rate > 0,
    ensures
        r == ticks_for_rate(rate),
        31 <= r <= 8064,
{
    assert(TICKS_PER_MEASURE == 8064);
    let per_measure: usize = 8064;
    let r = per_measure / (rate as usize);
    assert(31 <= 8064usize / (rate as usize) <= 8064) by (nonlinear_arith)
        requires
            0 < rate <= 255,
    ;
    r
}

impl SequencePlayer {
    /// Silences the player: queues a note-off for every sounding note, in
    /// ascending order of pitch, and forgets them all.
    pub fn note_off_all(&mut self, device_manager: &mut DeviceManager)
        requires
            old(self)@.instrument.channel >= 1,
        ensures
            final(self)@ == old(self)@.flushed(),
            final(device_manager)@ == old(device_manager)@ + old(self)@.flush_writes(),
    {
        let channel = self.instrument.channel - 1;
        let ghost notes = self.note_on_map@;
        let mut messages: Vec<OutMessage> = Vec::new();
        let mut i: usize = 0;
        assert(messages@ =~= note_offs(channel, pitches_below(notes, 0, false)));
        while i < 256
            invariant
                i <= 256,
                notes == self.note_on_map@,
                messages@ == note_offs(channel, pitches_below(notes, i as nat, false)),
            decreases 256 - i,
        {
            let p: u8 = i as u8;
            let ghost listed_before = pitches_below(notes, i as nat, false);
            if self.note_on_map.contains_key(&p) {
                messages.push(note_off(channel, p, 0));
                assert(messages@ =~= note_offs(channel, listed_before.push(p)));
            }
            i += 1;
        }
        if messages.len() > 0 {
            device_manager.write_messages(self.instrument.device.clone(), messages);
        }
        self.note_on_map.clear();
        assert(device_manager@ =~= old(device_manager)@ + old(self)@.flush_writes());
    }

    /// Starts the player's next bar: silences it, puts cursor and ticks back to
    /// zero and counts one bar more.
    pub fn next_bar(&mut self, device_manager: &mut DeviceManager)
        requires
            old(self)@.instrument.channel >= 1,
            old(self)@.bar_count < usize::MAX,
        ensures
            final(self)@ == old(self)@.next_bar_next(),
            final(device_manager)@ == old(device_manager)@ + old(self)@.flush_writes(),
    {
        self.step_index = 0;
        self.clock_count = 0;
        self.bar_count += 1;
        self.note_off_all(device_manager);
    }

    /// Advances the player by one fine tick. First every sounding note's deadline
    /// is counted down, and a note-off is queued for each note whose deadline has
    /// come. Then, on a step boundary with a step left, the step at the cursor is
    /// played and the cursor moves on: its control changes are queued at once, its
    /// program change and note-ons as one batch at the end.
    pub fn clock(&mut self, device_manager: &mut DeviceManager) -> (result: PlayerClockResult)
        requires
            old(self)@.instrument.valid(),
            old(self)@.clock_count < usize::MAX,
        ensures
            final(self)@ == old(self)@.clock_next(),
            final(device_manager)@ == old(device_manager)@ + old(self)@.clock_writes(),
            result == old(self)@.clock_result(),
    {
        let ghost pre = self@;
        let ghost queued = device_manager@;
        let mut result = PlayerClockResult::new();
        let channel = self.instrument.channel - 1;

        let offs = age_notes(&mut self.note_on_map, channel);
        if offs.len() > 0 {
            device_manager.write_messages(self.instrument.device.clone(), offs);
        }
        assert(device_manager@ =~= queued + batch(pre.instrument.device, pre.clock_note_offs()));

        let mut messages: Vec<OutMessage> = Vec::new();
        match self.instrument.sequence_index(&self.seq_name) {
            Some(found) => {
                let sequence = &self.instrument.sequences[found];
                assert(pre.sequence() == Some(sequence@));
                assert(sequence@.valid());
                let rate: u8 = match sequence.rate {
                    Some(r) => r,
                    None => DEFAULT_PLAY_RATE,
                };
                let ticks_per_step = rate_ticks(rate);
                let total_steps = sequence.steps.len();
                assert(total_steps == sequence@.steps.len());
                if self.clock_count % ticks_per_step == 0 && self.step_index < total_steps {
                    assert(pre.step_due());
                    match &sequence.steps[self.step_index] {
                        Some(step) => {
                            assert(pre.due_step() == Some(step@));
                            assert(step@.valid());
                            let duration_rate: u8 = match step.duration {
                                Some(d) => d,
                                None => rate,
                            };
                            let ticks = rate_ticks(duration_rate);
                            messages = strike_step(&mut self.note_on_map, step, channel, ticks);
                            result.note_was_played = match &step.pitch {
                                Some(tokens) => tokens.len() > 0,
                                None => false,
                            };
                            match (&self.instrument.data, &step.data) {
                                (Some(controls), Some(values)) => {
                                    assert forall|i: int| 0 <= i < controls.len() implies (
                                    #[trigger] controls@[i]).channel >= 1 by {
                                        let bindings = mod_devices_view(controls@);
                                        assert(pre.instrument.data == Some(bindings));
                                        assert(pre.instrument.data->0[i] == bindings[i]);
                                    }
                                    send_controls(device_manager, controls, values);
                                },
                                _ => {
                                    assert(pre.clock_control_writes() =~= Seq::empty());
                                },
                            }
                        },
                        None => {
                            assert(pre.due_step() is None);
                            assert(self.note_on_map@ =~= struck(
                                aged(pre.notes),
                                pre.strike_pitches(),
                                pre.strike_ticks(),
                            ));
                        },
                    }
                    self.step_index += 1;
                } else {
                    assert(!pre.step_due());
                    assert(self.note_on_map@ =~= struck(
                        aged(pre.notes),
                        pre.strike_pitches(),
                        pre.strike_ticks(),
                    ));
                }
                let elapsed: u128 = self.clock_count as u128 + 1;
                assert((ticks_per_step as u128) * (total_steps as u128) <= u128::MAX)
                    by (nonlinear_arith)
                    requires
                        ticks_per_step <= 8064,
                        total_steps <= usize::MAX,
                ;
                let whole: u128 = (ticks_per_step as u128) * (total_steps as u128);
                result.sequence_ended = elapsed >= whole;
            },
            None => {
                assert(pre.sequence() is None);
                assert(self.note_on_map@ =~= struck(
                    aged(pre.notes),
                    pre.strike_pitches(),
                    pre.strike_ticks(),
                ));
            },
        }
        self.clock_count += 1;
        assert(device_manager@ =~= queued + batch(pre.instrument.device, pre.clock_note_offs())
            + pre.clock_control_writes());
        if messages.len() > 0 {
            device_manager.write_messages(self.instrument.device.clone(), messages);
        }
        assert(device_manager@ =~= queued + pre.clock_writes());
        result
    }
}

// Every note gets its note-off --------------------------------------------------------------------

/// Whether `message` is a note-on for `pitch`.
pub open spec fn is_note_on_for(message: OutMessage, pitch: u8) -> bool {
    message matches OutMessage::NoteOn { pitch: p, .. } && p == pitch
}

/// Whether `message` is a note-off for `pitch`.
pub open spec fn is_note_off_for(message: OutMessage, pitch: u8) -> bool {
    message matches OutMessage::NoteOff { pitch: p, .. } && p == pitch
}

/// Whether `pitch` sounds once `messages` were sent, given whether it sounded
/// `before`: the last note-on or note-off for the pitch decides.
pub open spec fn sounds_after(messages: Seq<OutMessage>, pitch: u8, before: bool) -> bool
    decreases messages.len(),
{
    if messages.len() == 0 {
        before
    } else if is_note_on_for(messages.last(), pitch) {
        true
    } else if is_note_off_for(messages.last(), pitch) {
        false
    } else {
        sounds_after(messages.drop_last(), pitch, before)
    }
}

/// Whether every note-off for `pitch` in `messages` ends a note that sounds:
/// none is sent for a pitch that is silent, and so none twice for one note.
pub open spec fn offs_paired(messages: Seq<OutMessage>, pitch: u8, before: bool) -> bool
    decreases messages.len(),
{
    if messages.len() == 0 {
        true
    } else {
        &&& offs_paired(messages.drop_last(), pitch, before)
        &&& is_note_off_for(messages.last(), pitch) ==> sounds_after(
            messages.drop_last(),
            pitch,
            before,
        )
    }
}

/// The listed pitches come in ascending order, each once, and are exactly the
/// pitches below the bound that are listed.
pub proof fn lemma_pitches_below(notes: Map<u8, usize>, bound: nat, expiring: bool)
    requires
        bound <= 256,
    ensures
        forall|p: u8|
            #[trigger] pitches_below(notes, bound, expiring).contains(p) <==> (p < bound && listed(
                notes,
                p,
                expiring,
            )),
        forall|i: int, j: int|
            0 <= i < j < pitches_below(notes, bound, expiring).len() ==> pitches_below(
                notes,
                bound,
                expiring,
            )[i] < pitches_below(notes, bound, expiring)[j],
    decreases bound,
{
    let s = pitches_below(notes, bound, expiring);
    if bound == 0 {
    } else {
        let rest = pitches_below(notes, (bound - 1) as nat, expiring);
        lemma_pitches_below(notes, (bound - 1) as nat, expiring);
        let top = (bound - 1) as u8;
        if listed(notes, top, expiring) {
            assert(s == rest.push(top));
            assert forall|p: u8| s.contains(p) <==> (p < bound && listed(notes, p, expiring)) by {
                if s.contains(p) {
                    let k = choose|k: int| 0 <= k < s.len() && s[k] == p;
                    if k < rest.len() {
                        assert(rest[k] == p);
                        assert(rest.contains(p));
                    }
                }
                if p < bound && listed(notes, p, expiring) {
                    if p == top {
                        assert(s[rest.len() as int] == p);
                    } else {
                        assert(rest.contains(p));
                        let k = choose|k: int| 0 <= k < rest.len() && rest[k] == p;
                        assert(s[k] == p);
                    }
                }
            }
            assert forall|i: int, j: int| 0 <= i < j < s.len() implies s[i] < s[j] by {
                if j == rest.len() {
                    assert(rest.contains(rest[i]));
                }
            }
        } else {
            assert(s == rest);
        }
    }
}

/// Sending one list of messages after another: what sounds at the end is what
/// sounds after the second, given what sounded after the first, and the
/// note-offs are paired if they are so in both.
pub proof fn lemma_sounds_after_concat(
    first: Seq<OutMessage>,
    second: Seq<OutMessage>,
    pitch: u8,
    before: bool,
)
    ensures
        sounds_after(first + second, pitch, before) == sounds_after(
            second,
            pitch,
            sounds_after(first, pitch, before),
        ),
        offs_paired(first + second, pitch, before) == (offs_paired(first, pitch, before)
            && offs_paired(second, pitch, sounds_after(first, pitch, before))),
    decreases second.len(),
{
    if second.len() == 0 {
        assert(first + second =~= first);
    } else {
        assert((first + second).drop_last() =~= first + second.drop_last());
        assert((first + second).last() == second.last());
        lemma_sounds_after_concat(first, second.drop_last(), pitch, before);
    }
}

/// Note-offs for pitches in ascending order silence exactly those pitches, and
/// are paired where each of the pitches sounded.
pub proof fn lemma_note_offs_paired(channel: u8, pitches: Seq<u8>, pitch: u8, before: bool)
    requires
        forall|i: int, j: int| 0 <= i < j < pitches.len() ==> pitches[i] < pitches[j],
        pitches.contains(pitch) ==> before,
    ensures
        sounds_after(note_offs(channel, pitches), pitch, before) == (before && !pitches.contains(
            pitch,
        )),
        offs_paired(note_offs(channel, pitches), pitch, before),
    decreases pitches.len(),
{
    let offs = note_offs(channel, pitches);
    if pitches.len() > 0 {
        let front = pitches.drop_last();
        assert(offs.drop_last() =~= note_offs(channel, front));
        assert forall|i: int, j: int| 0 <= i < j < front.len() implies front[i] < front[j] by {
            assert(front[i] == pitches[i] && front[j] == pitches[j]);
        }
        if front.contains(pitch) {
            let k = choose|k: int| 0 <= k < front.len() && front[k] == pitch;
            assert(pitches[k] == pitch);
        }
        lemma_note_offs_paired(channel, front, pitch, before);
        if pitches.last() == pitch {
            assert(pitches[pitches.len() - 1] == pitch);
            assert(!front.contains(pitch)) by {
                if front.contains(pitch) {
                    let k = choose|k: int| 0 <= k < front.len() && front[k] == pitch;
                    assert(pitches[k] < pitches[pitches.len() - 1]);
                }
            }
        } else {
            assert(pitches.contains(pitch) ==> front.contains(pitch)) by {
                if pitches.contains(pitch) {
                    let k = choose|k: int| 0 <= k < pitches.len() && pitches[k] == pitch;
                    assert(front[k] == pitch);
                }
            }
        }
    }
}

/// Note-ons make their pitches sound and hold no note-off.
pub proof fn lemma_note_ons_sound(
    channel: u8,
    pitches: Seq<u8>,
    velocity: u8,
    pitch: u8,
    before: bool,
)
    ensures
        sounds_after(note_ons(channel, pitches, velocity), pitch, before) == (before
            || pitches.contains(pitch)),
        offs_paired(note_ons(channel, pitches, velocity), pitch, before),
    decreases pitches.len(),
{
    let ons = note_ons(channel, pitches, velocity);
    if pitches.len() > 0 {
        let front = pitches.drop_last();
        assert(ons.drop_last() =~= note_ons(channel, front, velocity));
        lemma_note_ons_sound(channel, front, velocity, pitch, before);
        if pitches.last() == pitch {
            assert(pitches[pitches.len() - 1] == pitch);
        } else {
            if pitches.contains(pitch) {
                let k = choose|k: int| 0 <= k < pitches.len() && pitches[k] == pitch;
                assert(front[k] == pitch);
            }
            if front.contains(pitch) {
                let k = choose|k: int| 0 <= k < front.len() && front[k] == pitch;
                assert(pitches[k] == pitch);
            }
        }
    }
}

impl PlayerView {
    /// The note messages one tick sends for the instrument, in order: the
    /// note-offs that are due, then what the step sends.
    pub open spec fn clock_messages(self) -> Seq<OutMessage> {
        self.clock_note_offs() + self.clock_step_messages()
    }

    /// The player `n` ticks later.
    pub open spec fn ticks_next(self, n: nat) -> PlayerView
        decreases n,
    {
        if n == 0 {
            self
        } else {
            self.ticks_next((n - 1) as nat).clock_next()
        }
    }
}

/// Note-off pairing, within one tick. Whatever sounded before the tick, for
/// every pitch: no note-off is sent unless the pitch sounds; after the messages
/// of the tick the pitch sounds exactly if the player holds a deadline for it;
/// and a pitch struck in this tick has the new length left, whatever it had
/// left before.
pub proof fn lemma_clock_pairs_notes(player: PlayerView, pitch: u8)
    ensures
        offs_paired(player.clock_messages(), pitch, player.notes.contains_key(pitch)),
        sounds_after(player.clock_messages(), pitch, player.notes.contains_key(pitch))
            == player.clock_next().notes.contains_key(pitch),
        player.strike_pitches().contains(pitch) ==> player.clock_next().notes[pitch]
            == player.strike_ticks(),
{
    let before = player.notes.contains_key(pitch);
    let channel = player.instrument.wire_channel();
    let offs = player.clock_note_offs();
    let gone = expiring(player.notes);
    lemma_pitches_below(player.notes, 256, true);
    assert(gone.contains(pitch) <==> listed(player.notes, pitch, true));
    lemma_note_offs_paired(channel, gone, pitch, before);
    let between = sounds_after(offs, pitch, before);
    lemma_sounds_after_concat(offs, player.clock_step_messages(), pitch, before);
    match player.due_step() {
        Some(step) => {
            let ons = note_ons(channel, step.pitches(), step.strike_velocity());
            lemma_note_ons_sound(channel, step.pitches(), step.strike_velocity(), pitch, between);
            match step.program {
                Some(p) => {
                    let head = seq![OutMessage::ProgramChange { channel, program: p }];
                    assert(head.drop_last() =~= Seq::<OutMessage>::empty());
                    assert(head.last() == OutMessage::ProgramChange { channel, program: p });
                    assert(sounds_after(head.drop_last(), pitch, between) == between);
                    assert(sounds_after(head, pitch, between) == between);
                    assert(offs_paired(head.drop_last(), pitch, between));
                    assert(!is_note_off_for(head.last(), pitch));
                    assert(offs_paired(head, pitch, between));
                    lemma_sounds_after_concat(head, ons, pitch, between);
                },
                None => {
                    assert(Seq::<OutMessage>::empty() + ons =~= ons);
                },
            }
        },
        None => {},
    }
}

/// Note-off pairing, at a flush. Silencing the player sends one note-off for
/// every pitch that sounds and none for any other, and leaves no pitch
/// sounding.
pub proof fn lemma_flush_pairs_notes(player: PlayerView, pitch: u8)
    ensures
        offs_paired(
            note_offs(player.instrument.wire_channel(), sounding(player.notes)),
            pitch,
            player.notes.contains_key(pitch),
        ),
        !sounds_after(
            note_offs(player.instrument.wire_channel(), sounding(player.notes)),
            pitch,
            player.notes.contains_key(pitch),
        ),
        !player.flushed().notes.contains_key(pitch),
        !player.next_bar_next().notes.contains_key(pitch),
{
    lemma_pitches_below(player.notes, 256, false);
    assert(sounding(player.notes).contains(pitch) <==> listed(player.notes, pitch, false));
    lemma_note_offs_paired(
        player.instrument.wire_channel(),
        sounding(player.notes),
        pitch,
        player.notes.contains_key(pitch),
    );
}

/// A note's deadline. A note with `left` ticks left that is not struck again
/// before is counted down tick by tick: no note-off is sent for it in the ticks
/// before its last, and in its last tick its note-off is sent.
pub proof fn lemma_note_off_at_deadline(player: PlayerView, pitch: u8, left: nat)
    requires
        left >= 1,
        player.notes.contains_key(pitch),
        player.notes[pitch] == left,
        forall|k: nat| k + 1 < left ==> !(#[trigger] player.ticks_next(k)).strike_pitches().contains(pitch),
    ensures
        forall|k: nat|
            k + 1 < left ==> !expiring((#[trigger] player.ticks_next(k)).notes).contains(pitch),
        expiring(player.ticks_next((left - 1) as nat).notes).contains(pitch),
{
    assert forall|k: nat| k < left implies {
        let then = #[trigger] player.ticks_next(k);
        then.notes.contains_key(pitch) && then.notes[pitch] == left - k
    } by {
        lemma_countdown(player, pitch, left, k);
    }
    assert forall|k: nat| k + 1 < left implies !expiring(
        (#[trigger] player.ticks_next(k)).notes,
    ).contains(pitch) by {
        lemma_countdown(player, pitch, left, k);
        let notes = player.ticks_next(k).notes;
        lemma_pitches_below(notes, 256, true);
        assert(expiring(notes).contains(pitch) <==> listed(notes, pitch, true));
    }
    lemma_countdown(player, pitch, left, (left - 1) as nat);
    let last = player.ticks_next((left - 1) as nat).notes;
    lemma_pitches_below(last, 256, true);
    assert(expiring(last).contains(pitch) <==> listed(last, pitch, true));
}

proof fn lemma_countdown(player: PlayerView, pitch: u8, left: nat, k: nat)
    requires
        left >= 1,
        k < left,
        player.notes.contains_key(pitch),
        player.notes[pitch] == left,
        forall|j: nat| j + 1 < left ==> !(#[trigger] player.ticks_next(j)).strike_pitches().contains(pitch),
    ensures
        player.ticks_next(k).notes.contains_key(pitch),
        player.ticks_next(k).notes[pitch] == left - k,
    decreases k,
{
    if k > 0 {
        let j = (k - 1) as nat;
        lemma_countdown(player, pitch, left, j);
        let then = player.ticks_next(j);
        assert(!then.strike_pitches().contains(pitch));
        assert(then.notes[pitch] == left - j);
        assert(aged(then.notes).contains_key(pitch));
    }
}

/// Ticks add up: the player `n` ticks after its next tick is the player `n + 1`
/// ticks on.
proof fn lemma_ticks_next_shift(player: PlayerView, n: nat)
    ensures
        player.clock_next().ticks_next(n) == player.ticks_next(n + 1),
    decreases n,
{
    if n == 0 {
        assert(player.ticks_next(0) == player);
        assert(player.ticks_next(1) == player.ticks_next(0).clock_next());
    } else {
        lemma_ticks_next_shift(player, (n - 1) as nat);
        assert(player.ticks_next(n + 1) == player.ticks_next(n).clock_next());
    }
}

/// Note-off pairing, from the note-on to its note-off. A pitch struck in a tick
/// for `length` ticks, and not struck again in the `length - 1` ticks that
/// follow, holds its deadline from that tick on; no note-off is sent for it in
/// those ticks; its note-off is sent in the tick `length` ticks after the
/// strike; and unless that same tick strikes it anew, it is then silent, so
/// that no later tick and no flush sends a second note-off for it.
pub proof fn lemma_struck_note_gets_one_note_off(player: PlayerView, pitch: u8, length: nat)
    requires
        length >= 1,
        player.strike_pitches().contains(pitch),
        player.strike_ticks() == length,
        forall|k: nat|
            1 <= k < length ==> !(#[trigger] player.ticks_next(k)).strike_pitches().contains(pitch),
    ensures
        player.ticks_next(1).notes.contains_key(pitch),
        player.ticks_next(1).notes[pitch] == length,
        forall|k: nat|
            1 <= k < length ==> !expiring((#[trigger] player.ticks_next(k)).notes).contains(pitch),
        expiring(player.ticks_next(length).notes).contains(pitch),
        !player.ticks_next(length).strike_pitches().contains(pitch) ==> {
            &&& !player.ticks_next(length + 1).notes.contains_key(pitch)
            &&& !expiring(player.ticks_next(length + 1).notes).contains(pitch)
            &&& !sounding(player.ticks_next(length + 1).notes).contains(pitch)
        },
{
    let struck_player = player.clock_next();
    assert(player.ticks_next(1) == struck_player) by {
        assert(player.ticks_next(0) == player);
    }
    assert forall|j: nat| j + 1 < length implies !(#[trigger] struck_player.ticks_next(
        j,
    )).strike_pitches().contains(pitch) by {
        lemma_ticks_next_shift(player, j);
        assert(!player.ticks_next(j + 1).strike_pitches().contains(pitch));
    }
    lemma_note_off_at_deadline(struck_player, pitch, length);
    assert forall|k: nat| 1 <= k < length implies !expiring(
        (#[trigger] player.ticks_next(k)).notes,
    ).contains(pitch) by {
        let j = (k - 1) as nat;
        lemma_ticks_next_shift(player, j);
        assert(!expiring(struck_player.ticks_next(j).notes).contains(pitch));
    }
    lemma_ticks_next_shift(player, (length - 1) as nat);
    let last = player.ticks_next(length);
    lemma_pitches_below(last.notes, 256, true);
    assert(expiring(last.notes).contains(pitch) <==> listed(last.notes, pitch, true));
    if !last.strike_pitches().contains(pitch) {
        let after = player.ticks_next(length + 1);
        assert(after == last.clock_next());
        assert(!after.notes.contains_key(pitch));
        lemma_pitches_below(after.notes, 256, true);
        lemma_pitches_below(after.notes, 256, false);
        assert(expiring(after.notes).contains(pitch) <==> listed(after.notes, pitch, true));
        assert(sounding(after.notes).contains(pitch) <==> listed(after.notes, pitch, false));
    }
}

} // verus!
