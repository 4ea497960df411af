//! Wire-level helpers: status bytes, outbound messages, the output queue and
//! note names.

use vstd::prelude::*;

verus! {

// Status bytes ------------------------------------------------------------------------------------

/// Whether a status byte announces a channel message (note, control, program, ...),
/// as opposed to data or a system message.
pub fn is_channel_message(status_bytes: u8) -> (r: bool)
    ensures
        r == (128 <= status_bytes <= 239),
{
    status_bytes >= 128 && status_bytes <= 239
}

/// The channel (0-based) carried in the low four bits of a status byte.
pub fn parse_channel(status_bytes: u8) -> (r: u8)
    ensures
        r == status_bytes % 16,
{
    assert(status_bytes & 0x0f == status_bytes % 16) by (bit_vector);
    status_bytes & 0x0f
}

/// The message kind carried in the high four bits of a status byte, left in place.
pub fn parse_status(status_bytes: u8) -> (r: u8)
    ensures
        r == status_bytes - status_bytes % 16,
{
    assert(status_bytes & 0xf0 == status_bytes - status_bytes % 16) by (bit_vector);
    status_bytes & 0xf0
}

// Outbound messages -------------------------------------------------------------------------------

/// Status byte of a note-off on channel 0.
pub const STATUS_NOTE_OFF: u8 = 0x80;

/// Status byte of a note-on on channel 0.
pub const STATUS_NOTE_ON: u8 = 0x90;

/// Status byte of a control change on channel 0.
pub const STATUS_CONTROL_CHANGE: u8 = 0xB0;

/// Status byte of a program change on channel 0.
pub const STATUS_PROGRAM_CHANGE: u8 = 0xC0;

/// One message for an output device. Channels are 0-based, as on the wire.
#[derive(Clone, Copy, Debug, PartialEq, Eq, Structural)]
pub enum OutMessage {
    NoteOn { channel: u8, pitch: u8, velocity: u8 },
    NoteOff { channel: u8, pitch: u8, velocity: u8 },
    ControlChange { channel: u8, control: u8, value: u8 },
    ProgramChange { channel: u8, program: u8 },
}

/// The four bytes a device is sent for one message.
#[derive(Clone, Copy, Debug, PartialEq, Eq, Structural)]
pub struct WireMessage {
    pub status: u8,
    pub data1: u8,
    pub data2: u8,
    pub data3: u8,
}

impl OutMessage {
    /// The 0-based channel the message is addressed to.
    pub open spec fn spec_channel(self) -> u8 {
        match self {
            OutMessage::NoteOn { channel, .. } => channel,
            OutMessage::NoteOff { channel, .. } => channel,
            OutMessage::ControlChange { channel, .. } => channel,
            OutMessage::ProgramChange { channel, .. } => channel,
        }
    }

    /// The status byte of the message's kind on channel 0.
    pub open spec fn spec_kind(self) -> u8 {
        match self {
            OutMessage::NoteOn { .. } => STATUS_NOTE_ON,
            OutMessage::NoteOff { .. } => STATUS_NOTE_OFF,
            OutMessage::ControlChange { .. } => STATUS_CONTROL_CHANGE,
            OutMessage::ProgramChange { .. } => STATUS_PROGRAM_CHANGE,
        }
    }

    /// The first data byte: pitch, control number or program.
    pub open spec fn spec_data1(self) -> u8 {
        match self {
            OutMessage::NoteOn { pitch, .. } => pitch,
            OutMessage::NoteOff { pitch, .. } => pitch,
            OutMessage::ControlChange { control, .. } => control,
            OutMessage::ProgramChange { program, .. } => program,
        }
    }

    /// The second data byte: velocity or control value; 0 for a program change.
    pub open spec fn spec_data2(self) -> u8 {
        match self {
            OutMessage::NoteOn { velocity, .. } => velocity,
            OutMessage::NoteOff { velocity, .. } => velocity,
            OutMessage::ControlChange { value, .. } => value,
            OutMessage::ProgramChange { .. } => 0,
        }
    }

    /// The bytes of a message whose channel fits the status byte's four bits.
    pub open spec fn spec_wire(self) -> WireMessage {
        WireMessage {
            status: (self.spec_kind() + self.spec_channel()) as u8,
            data1: self.spec_data1(),
            data2: self.spec_data2(),
            data3: 0,
        }
    }

    /// The 0-based channel the message is addressed to.
    pub fn channel(&self) -> (r: u8)
        ensures
            r == self.spec_channel(),
    {
        match self {
            OutMessage::NoteOn { channel, .. } => *channel,
            OutMessage::NoteOff { channel, .. } => *channel,
            OutMessage::ControlChange { channel, .. } => *channel,
            OutMessage::ProgramChange { channel, .. } => *channel,
        }
    }

    /// Encodes the message for the wire: the kind's status byte plus the channel, then
    /// the data bytes. A channel above 15 does not fit a status byte and gives `None`.
    pub fn wire(&self) -> (r: Option<WireMessage>)
        ensures
            r == (if self.spec_channel() <= 15 {
                Some(self.spec_wire())
            } else {
                None
            }),
    {
        let channel = self.channel();
        if channel > 15 {
            return None;
        }
        let w = match self {
            OutMessage::NoteOn { pitch, velocity, .. } => WireMessage {
                status: STATUS_NOTE_ON + channel,
                data1: *pitch,
                data2: *velocity,
                data3: 0,
            },
            OutMessage::NoteOff { pitch, velocity, .. } => WireMessage {
                status: STATUS_NOTE_OFF + channel,
                data1: *pitch,
                data2: *velocity,
                data3: 0,
            },
            OutMessage::ControlChange { control, value, .. } => WireMessage {
                status: STATUS_CONTROL_CHANGE + channel,
                data1: *control,
                data2: *value,
                data3: 0,
            },
            OutMessage::ProgramChange { program, .. } => WireMessage {
                status: STATUS_PROGRAM_CHANGE + channel,
                data1: *program,
                data2: 0,
                data3: 0,
            },
        };
        Some(w)
    }
}

/// A control change of `control` to `value` on a 0-based channel.
pub fn control_change(channel: u8, control: u8, value: u8) -> (m: OutMessage)
    ensures
        m == (OutMessage::ControlChange { channel, control, value }),
{
    OutMessage::ControlChange { channel, control, value }
}

/// A note-on of `pitch` at `velocity` on a 0-based channel.
pub fn note_on(channel: u8, pitch: u8, velocity: u8) -> (m: OutMessage)
    ensures
        m == (OutMessage::NoteOn { channel, pitch, velocity }),
{
    OutMessage::NoteOn { channel, pitch, velocity }
}

/// A note-off of `pitch` at `velocity` on a 0-based channel.
pub fn note_off(channel: u8, pitch: u8, velocity: u8) -> (m: OutMessage)
    ensures
        m == (OutMessage::NoteOff { channel, pitch, velocity }),
{
    OutMessage::NoteOff { channel, pitch, velocity }
}

/// A change to `program` on a 0-based channel.
pub fn program_change(channel: u8, program: u8) -> (m: OutMessage)
    ensures
        m == (OutMessage::ProgramChange { channel, program }),
{
    OutMessage::ProgramChange { channel, program }
}

/// The status byte of an encoded message is a channel message's, and splits back
/// into the message's kind and channel.
pub proof fn lemma_wire_status_round_trip(m: OutMessage)
    requires
        m.spec_channel() <= 15,
    ensures
        128 <= m.spec_wire().status <= 239,
        m.spec_wire().status % 16 == m.spec_channel(),
        m.spec_wire().status - m.spec_wire().status % 16 == m.spec_kind(),
{
}

// Output queue ------------------------------------------------------------------------------------

/// A batch of messages for one device, in the order they are to be sent.
#[derive(Debug)]
pub struct DeviceWrite {
    pub device: String,
    pub messages: Vec<OutMessage>,
}

pub struct DeviceWriteView {
    pub device: Seq<char>,
    pub messages: Seq<OutMessage>,
}

impl View for DeviceWrite {
    type V = DeviceWriteView;

    open spec fn view(&self) -> DeviceWriteView {
        DeviceWriteView { device: self.device@, messages: self.messages@ }
    }
}

/// The view of each batch of a list.
pub open spec fn device_writes_view(v: Seq<DeviceWrite>) -> Seq<DeviceWriteView> {
    v.map_values(|w: DeviceWrite| w@)
}

/// The sink for outbound messages: an append-only queue of batches, which keeps
/// the order in which they were submitted until they are taken out to be sent.
pub struct DeviceManager {
    queue: Vec<DeviceWrite>,
}

impl View for DeviceManager {
    type V = Seq<DeviceWriteView>;

    closed spec fn view(&self) -> Seq<DeviceWriteView> {
        device_writes_view(self.queue@)
    }
}

impl DeviceManager {
    /// A sink with nothing queued.
    pub fn new() -> (r: DeviceManager)
        ensures
            r@ == Seq::<DeviceWriteView>::empty(),
    {
        let r = DeviceManager { queue: Vec::new() };
        assert(r@ =~= Seq::<DeviceWriteView>::empty());
        r
    }

    /// Queues one batch of messages for the device called `device_name`, behind
    /// everything queued before.
    pub fn write_messages(&mut self, device_name: String, messages: Vec<OutMessage>)
        ensures
            final(self)@ == old(self)@.push(
                DeviceWriteView { device: device_name@, messages: messages@ },
            ),
    {
        self.queue.push(DeviceWrite { device: device_name, messages });
        assert(self@ =~= old(self)@.push(
            DeviceWriteView { device: device_name@, messages: messages@ },
        ));
    }

    /// The number of batches queued.
    pub fn pending(&self) -> (r: usize)
        ensures
            r == self@.len(),
    {
        self.queue.len()
    }

    /// Takes out everything queued, oldest first, and leaves the queue empty.
    pub fn take(&mut self) -> (r: Vec<DeviceWrite>)
        ensures
            device_writes_view(r@) == old(self)@,
            final(self)@ == Seq::<DeviceWriteView>::empty(),
    {
        let mut out: Vec<DeviceWrite> = Vec::new();
        core::mem::swap(&mut self.queue, &mut out);
        assert(self@ =~= Seq::<DeviceWriteView>::empty());
        out
    }
}

// Note names --------------------------------------------------------------------------------------

/// Whether `c` is one of the ten decimal digits.
pub open spec fn is_digit(c: char) -> bool {
    '0' <= c <= '9'
}

/// The value of a decimal digit; 0 for any other character.
pub open spec fn digit_value(c: char) -> nat {
    if is_digit(c) {
        (c as u32 - '0' as u32) as nat
    } else {
        0
    }
}

/// Whether every character of `s` is a decimal digit.
pub open spec fn all_digits(s: Seq<char>) -> bool {
    forall|i: int| 0 <= i < s.len() ==> is_digit(#[trigger] s[i])
}

/// The number that a string of decimal digits writes.
pub open spec fn decimal_value(s: Seq<char>) -> nat
    decreases s.len(),
{
    if s.len() == 0 {
        0
    } else {
        decimal_value(s.drop_last()) * 10 + digit_value(s.last())
    }
}

/// The digits of a numeral: the text without one leading plus sign.
pub open spec fn numeral_digits(s: Seq<char>) -> Seq<char> {
    if s.len() > 0 && s[0] == '+' {
        s.subrange(1, s.len() as int)
    } else {
        s
    }
}

/// The value of `s` read as a decimal numeral of at most 255: an optional plus
/// sign, then one or more digits and nothing else. `None` for any other text.
pub open spec fn numeral_value(s: Seq<char>) -> Option<u8> {
    let digits = numeral_digits(s);
    if digits.len() > 0 && all_digits(digits) && decimal_value(digits) <= 255 {
        Some(decimal_value(digits) as u8)
    } else {
        None
    }
}

/// Semitones above C of a note: a letter from A to G, sharpened or not. `None`
/// where there is no such note: for any other letter, and for a sharp on E or
/// B.
pub open spec fn note_index(letter: char, sharp: bool) -> Option<nat> {
    if letter == 'C' {
        Some(if sharp { 1nat } else { 0nat })
    } else if letter == 'D' {
        Some(if sharp { 3nat } else { 2nat })
    } else if letter == 'E' {
        if sharp { None } else { Some(4nat) }
    } else if letter == 'F' {
        Some(if sharp { 6nat } else { 5nat })
    } else if letter == 'G' {
        Some(if sharp { 8nat } else { 7nat })
    } else if letter == 'A' {
        Some(if sharp { 10nat } else { 9nat })
    } else if letter == 'B' {
        if sharp { None } else { Some(11nat) }
    } else {
        None
    }
}

/// The parts of a token that has the shape of a note name: the letter, whether
/// a `#` follows it, and the octave character. A note name has two characters,
/// or three with `#` in the middle, and nothing else.
pub open spec fn note_name_parts(s: Seq<char>) -> Option<(char, bool, char)> {
    if s.len() == 2 {
        Some((s[0], false, s[1]))
    } else if s.len() == 3 && s[1] == '#' {
        Some((s[0], true, s[2]))
    } else {
        None
    }
}

/// The note number that a note name stands for: twelve semitones to the
/// octave, with octave 4 beginning at 60, so that `C4` is 60 and `C0` is 12.
/// `None` for a token that is no note name: one of another shape, with no such
/// note, or with an octave that is no digit.
pub open spec fn note_name_value(s: Seq<char>) -> Option<nat> {
    match note_name_parts(s) {
        Some((letter, sharp, octave)) => match note_index(letter, sharp) {
            Some(index) => if is_digit(octave) {
                Some(index + 12 * (digit_value(octave) + 1))
            } else {
                None
            },
            None => None,
        },
        None => None,
    }
}

/// The note number a token is read as when taken for a note name: the name's
/// note number, and 0 for a token that is no note name.
pub open spec fn note_symbol_value(s: Seq<char>) -> nat {
    match note_name_value(s) {
        Some(value) => value,
        None => 0,
    }
}

/// The note number a token stands for: its value as a numeral where it is one,
/// else its note number as a note name, else 0.
pub open spec fn midi_note_value(s: Seq<char>) -> nat {
    match numeral_value(s) {
        Some(n) => n as nat,
        None => note_symbol_value(s),
    }
}

/// A string of digits is worth at least as much as any of its prefixes.
pub proof fn lemma_decimal_value_prefix(s: Seq<char>, k: int)
    requires
        0 <= k <= s.len(),
    ensures
        decimal_value(s.take(k)) <= decimal_value(s),
    decreases s.len(),
{
    if k == s.len() {
        assert(s.take(k) =~= s);
    } else {
        lemma_decimal_value_prefix(s.drop_last(), k);
        assert(s.drop_last().take(k) =~= s.take(k));
    }
}

fn note_index_of(letter: char, sharp: bool) -> (r: Option<u8>)
    ensures
        match r {
            Some(index) => note_index(letter, sharp) == Some(index as nat) && index <= 11,
            None => note_index(letter, sharp) is None,
        },
{
    if letter == 'C' {
        Some(if sharp { 1 } else { 0 })
    } else if letter == 'D' {
        Some(if sharp { 3 } else { 2 })
    } else if letter == 'E' {
        if sharp { None } else { Some(4) }
    } else if letter == 'F' {
        Some(if sharp { 6 } else { 5 })
    } else if letter == 'G' {
        Some(if sharp { 8 } else { 7 })
    } else if letter == 'A' {
        Some(if sharp { 10 } else { 9 })
    } else if letter == 'B' {
        if sharp { None } else { Some(11) }
    } else {
        None
    }
}

/// The note number of a note with the given parts, if they make a note name.
fn note_number_of(letter: char, sharp: bool, octave: char) -> (r: Option<u8>)
    ensures
        match r {
            Some(value) => note_index(letter, sharp) is Some && is_digit(octave) && value
                == note_index(letter, sharp)->0 + 12 * (digit_value(octave) + 1),
            None => note_index(letter, sharp) is None || !is_digit(octave),
        },
{
    match note_index_of(letter, sharp) {
        Some(index) => {
            if octave >= '0' && octave <= '9' {
                Some(index + 12 * (digit_of(octave) + 1))
            } else {
                None
            }
        },
        None => None,
    }
}

fn digit_of(c: char) -> (r: u8)
    ensures
        r == digit_value(c),
        r <= 9,
{
    if c >= '0' && c <= '9' {
        let d: u32 = c as u32 - '0' as u32;
        d as u8
    } else {
        0
    }
}

/// Reads a token as a decimal numeral of at most 255.
pub fn parse_numeral(symbol: &String) -> (r: Option<u8>)
    ensures
        r == numeral_value(symbol@),
{
    let s = symbol.as_str();
    let n = s.unicode_len();
    let start: usize = if n > 0 && s.get_char(0) == '+' { 1 } else { 0 };
    let ghost digits = numeral_digits(symbol@);
    assert(digits =~= symbol@.subrange(start as int, n as int));
    if start == n {
        return None;
    }
    let mut acc: u32 = 0;
    let mut i: usize = start;
    while i < n
        invariant
            start <= i <= n,
            n == symbol@.len(),
            s@ == symbol@,
            digits == numeral_digits(symbol@),
            digits == symbol@.subrange(start as int, n as int),
            all_digits(digits.take(i - start)),
            acc == decimal_value(digits.take(i - start)),
            acc <= 255,
        decreases n - i,
    {
        let c = s.get_char(i);
        assert(digits[i - start] == c);
        if !(c >= '0' && c <= '9') {
            assert(!is_digit(digits[i - start]));
            return None;
        }
        let d = digit_of(c);
        let next: u32 = acc * 10 + d as u32;
        proof {
            let t = digits.take(i - start + 1);
            assert(t.drop_last() =~= digits.take(i - start));
            assert(t.last() == c);
            assert(next == decimal_value(t));
            assert forall|j: int| 0 <= j < t.len() implies is_digit(#[trigger] t[j]) by {
                if j < i - start {
                    assert(digits.take(i - start)[j] == t[j]);
                }
            }
            if next > 255 {
                lemma_decimal_value_prefix(digits, i - start + 1);
            }
        }
        if next > 255 {
            return None;
        }
        acc = next;
        i += 1;
    }
    assert(digits.take(i - start) =~= digits);
    Some(acc as u8)
}

/// Reads a token as a note name: a letter from A to G, an optional `#`, and one
/// octave digit, as in `C4`, which is 60, or `A#2`, which is 46. A token that is
/// no note name reads as 0.
pub fn parse_midi_note_symbol(symbol: &String) -> (r: u8)
    ensures
        r == note_symbol_value(symbol@),
{
    let s = symbol.as_str();
    let n = s.unicode_len();
    let value: Option<u8> = if n == 2 {
        note_number_of(s.get_char(0), false, s.get_char(1))
    } else if n == 3 && s.get_char(1) == '#' {
        note_number_of(s.get_char(0), true, s.get_char(2))
    } else {
        None
    };
    match value {
        Some(v) => v,
        None => 0,
    }
}

/// Reads a pitch or velocity token: a numeral where the token is one, else a
/// note name. A token that is neither reads as 0.
pub fn parse_midi_note(symbol: &String) -> (r: u8)
    ensures
        r == midi_note_value(symbol@),
{
    match parse_numeral(symbol) {
        Some(n) => n,
        None => parse_midi_note_symbol(symbol),
    }
}

} // verus!
