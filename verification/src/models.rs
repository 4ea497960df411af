//! The performance definition: controller, scenes, tracks, instruments and
//! sequences, each with the mathematical view that the engine's contracts
//! speak of.

use vstd::prelude::*;
use crate::config::{DEFAULT_MIDI_CHANNEL, DEFAULT_PARTS_PER_QUARTER, DEFAULT_PLAY_RATE, TICKS_PER_MEASURE};

verus! {

// Views of strings --------------------------------------------------------------------------------

/// The text of each string of a list.
pub open spec fn strings_view(v: Seq<String>) -> Seq<Seq<char>> {
    v.map_values(|s: String| s@)
}

/// The text of an optional string.
pub open spec fn opt_string_view(o: Option<String>) -> Option<Seq<char>> {
    match o {
        Some(s) => Some(s@),
        None => None,
    }
}

/// The index of the last entry of `names` that equals `name`.
pub open spec fn last_named(names: Seq<Seq<char>>, name: Seq<char>) -> Option<int>
    decreases names.len(),
{
    if names.len() == 0 {
        None
    } else if names.last() == name {
        Some(names.len() - 1)
    } else {
        last_named(names.drop_last(), name)
    }
}

/// `last_named` finds an entry that equals `name`, with none behind it, and finds
/// one whenever there is one.
pub proof fn lemma_last_named(names: Seq<Seq<char>>, name: Seq<char>)
    ensures
        match last_named(names, name) {
            Some(i) => 0 <= i < names.len() && names[i] == name && forall|j: int|
                i < j < names.len() ==> #[trigger] names[j] != name,
            None => forall|j: int| 0 <= j < names.len() ==> #[trigger] names[j] != name,
        },
    decreases names.len(),
{
    if names.len() > 0 && names.last() != name {
        let front = names.drop_last();
        lemma_last_named(front, name);
        assert forall|j: int| 0 <= j < front.len() implies #[trigger] names[j] == front[j] by {}
    }
}

/// Fine ticks between two events at `rate` events per measure.
pub open spec fn ticks_for_rate(rate: u8) -> nat {
    if rate == 0 {
        0
    } else {
        (TICKS_PER_MEASURE / (rate as u64)) as nat
    }
}

// Controller --------------------------------------------------------------------------------------

/// The device and channel whose transport messages drive the performance.
#[derive(Debug)]
pub struct Controller {
    pub device: String,
    pub channel: u8,
    pub ppq: Option<u64>,
}

pub struct ControllerView {
    pub device: Seq<char>,
    pub channel: u8,
    pub ppq: Option<u64>,
}

impl ControllerView {
    /// No device, the default channel, the default pulses per quarter note.
    pub open spec fn initial() -> ControllerView {
        ControllerView {
            device: Seq::<char>::empty(),
            channel: DEFAULT_MIDI_CHANNEL,
            ppq: Some(DEFAULT_PARTS_PER_QUARTER),
        }
    }
}

impl View for Controller {
    type V = ControllerView;

    open spec fn view(&self) -> ControllerView {
        ControllerView { device: self.device@, channel: self.channel, ppq: self.ppq }
    }
}

impl Clone for Controller {
    fn clone(&self) -> (r: Controller)
        ensures
            r@ == self@,
    {
        Controller { device: self.device.clone(), channel: self.channel, ppq: self.ppq }
    }
}

impl Controller {
    /// A controller on no device, on the default channel, at the default pulses
    /// per quarter note.
    pub fn new() -> (r: Controller)
        ensures
            r@ == ControllerView::initial(),
    {
        Controller {
            device: String::new(),
            channel: DEFAULT_MIDI_CHANNEL,
            ppq: Some(DEFAULT_PARTS_PER_QUARTER),
        }
    }
}

// Track -------------------------------------------------------------------------------------------

/// One instrument's part in a scene: the sequences it plays, one per bar, in a
/// cycle, and the track it follows, if any.
#[derive(Debug)]
pub struct Track {
    pub instrument: String,
    pub follow: Option<String>,
    pub play: Vec<String>,
}

pub struct TrackView {
    pub instrument: Seq<char>,
    pub follow: Option<Seq<char>>,
    pub play: Seq<Seq<char>>,
}

impl View for Track {
    type V = TrackView;

    open spec fn view(&self) -> TrackView {
        TrackView {
            instrument: self.instrument@,
            follow: opt_string_view(self.follow),
            play: strings_view(self.play@),
        }
    }
}

impl TrackView {
    /// The sequence the track plays in bar `bar`: its `play` list, taken in a cycle.
    pub open spec fn sequence_at(self, bar: nat) -> Seq<char>
        recommends
            self.play.len() > 0,
    {
        self.play[(bar % self.play.len()) as int]
    }
}

// Scene -------------------------------------------------------------------------------------------

/// A named group of tracks that play together.
#[derive(Debug)]
pub struct Scene {
    pub name: String,
    pub master: Option<String>,
    pub tracks: Vec<Track>,
}

pub struct SceneView {
    pub name: Seq<char>,
    pub master: Option<Seq<char>>,
    pub tracks: Seq<TrackView>,
}

/// The view of each track of a list.
pub open spec fn tracks_view(v: Seq<Track>) -> Seq<TrackView> {
    v.map_values(|t: Track| t@)
}

impl View for Scene {
    type V = SceneView;

    open spec fn view(&self) -> SceneView {
        SceneView {
            name: self.name@,
            master: opt_string_view(self.master),
            tracks: tracks_view(self.tracks@),
        }
    }
}

// SequenceStep ------------------------------------------------------------------------------------

/// One slot of a sequence: the notes to strike, with their velocity and length,
/// a program to change to, and values for the instrument's controls.
#[derive(Debug)]
pub struct SequenceStep {
    pub pitch: Option<Vec<String>>,
    pub velocity: Option<String>,
    pub program: Option<u8>,
    pub data: Option<Vec<u8>>,
    pub duration: Option<u8>,
}

pub struct StepView {
    pub pitch: Option<Seq<Seq<char>>>,
    pub velocity: Option<Seq<char>>,
    pub program: Option<u8>,
    pub data: Option<Seq<u8>>,
    pub duration: Option<u8>,
}

impl View for SequenceStep {
    type V = StepView;

    open spec fn view(&self) -> StepView {
        StepView {
            pitch: match self.pitch {
                Some(p) => Some(strings_view(p@)),
                None => None,
            },
            velocity: opt_string_view(self.velocity),
            program: self.program,
            data: match self.data {
                Some(d) => Some(d@),
                None => None,
            },
            duration: self.duration,
        }
    }
}

/// The view of an optional step; a rest has none.
pub open spec fn opt_step_view(o: Option<SequenceStep>) -> Option<StepView> {
    match o {
        Some(s) => Some(s@),
        None => None,
    }
}

// Sequence ----------------------------------------------------------------------------------------

/// A named list of steps, played at `rate` steps per measure.
#[derive(Debug)]
pub struct Sequence {
    pub name: String,
    pub rate: Option<u8>,
    pub steps: Vec<Option<SequenceStep>>,
}

pub struct SequenceView {
    pub name: Seq<char>,
    pub rate: Option<u8>,
    pub steps: Seq<Option<StepView>>,
}

/// The view of each step of a list.
pub open spec fn steps_view(v: Seq<Option<SequenceStep>>) -> Seq<Option<StepView>> {
    v.map_values(|s: Option<SequenceStep>| opt_step_view(s))
}

impl View for Sequence {
    type V = SequenceView;

    open spec fn view(&self) -> SequenceView {
        SequenceView { name: self.name@, rate: self.rate, steps: steps_view(self.steps@) }
    }
}

impl SequenceView {
    /// Steps per measure: the sequence's own rate, or quarter notes.
    pub open spec fn play_rate(self) -> u8 {
        match self.rate {
            Some(r) => r,
            None => DEFAULT_PLAY_RATE,
        }
    }

    /// Fine ticks from one step to the next.
    pub open spec fn ticks_per_step(self) -> nat {
        ticks_for_rate(self.play_rate())
    }
}

impl StepView {
    /// Fine ticks that a note of this step sounds, in a sequence played at
    /// `rate`: the step's own duration, given as a rate, or one step.
    pub open spec fn duration_ticks(self, rate: u8) -> nat {
        match self.duration {
            Some(d) => ticks_for_rate(d),
            None => ticks_for_rate(rate),
        }
    }
}

impl Sequence {
    /// A sequence with no name, no rate of its own and no steps.
    pub fn new() -> (r: Sequence)
        ensures
            r@ == (SequenceView {
                name: Seq::<char>::empty(),
                rate: None,
                steps: Seq::<Option<StepView>>::empty(),
            }),
    {
        let r = Sequence { name: String::new(), rate: None, steps: Vec::new() };
        assert(r@.steps =~= Seq::<Option<StepView>>::empty());
        r
    }
}

// ModDevice ---------------------------------------------------------------------------------------

/// Where one control value of a step goes: a device, a 1-based channel and a
/// control number.
#[derive(Debug)]
pub struct ModDevice {
    pub device: String,
    pub channel: u8,
    pub control: u8,
}

pub struct ModDeviceView {
    pub device: Seq<char>,
    pub channel: u8,
    pub control: u8,
}

impl View for ModDevice {
    type V = ModDeviceView;

    open spec fn view(&self) -> ModDeviceView {
        ModDeviceView { device: self.device@, channel: self.channel, control: self.control }
    }
}

/// The view of each control binding of a list.
pub open spec fn mod_devices_view(v: Seq<ModDevice>) -> Seq<ModDeviceView> {
    v.map_values(|d: ModDevice| d@)
}

// Instrument --------------------------------------------------------------------------------------

/// A named voice: the device and 1-based channel it sounds on, its control
/// bindings and its sequences.
#[derive(Debug)]
pub struct Instrument {
    pub name: String,
    pub device: String,
    pub channel: u8,
    pub data: Option<Vec<ModDevice>>,
    pub sequences: Vec<Sequence>,
}

pub struct InstrumentView {
    pub name: Seq<char>,
    pub device: Seq<char>,
    pub channel: u8,
    pub data: Option<Seq<ModDeviceView>>,
    pub sequences: Seq<SequenceView>,
}

/// The view of each sequence of a list.
pub open spec fn sequences_view(v: Seq<Sequence>) -> Seq<SequenceView> {
    v.map_values(|s: Sequence| s@)
}

impl View for Instrument {
    type V = InstrumentView;

    open spec fn view(&self) -> InstrumentView {
        InstrumentView {
            name: self.name@,
            device: self.device@,
            channel: self.channel,
            data: match self.data {
                Some(d) => Some(mod_devices_view(d@)),
                None => None,
            },
            sequences: sequences_view(self.sequences@),
        }
    }
}

// Performance -------------------------------------------------------------------------------------

/// The whole definition: the controller, the playlist of scene names, the scenes
/// and the instruments.
#[derive(Debug)]
pub struct Performance {
    pub controller: Controller,
    pub playlist: Vec<String>,
    pub scenes: Vec<Scene>,
    pub instruments: Vec<Instrument>,
}

pub struct PerformanceView {
    pub controller: ControllerView,
    pub playlist: Seq<Seq<char>>,
    pub scenes: Seq<SceneView>,
    pub instruments: Seq<InstrumentView>,
}

/// The view of each scene of a list.
pub open spec fn scenes_view(v: Seq<Scene>) -> Seq<SceneView> {
    v.map_values(|s: Scene| s@)
}

/// The view of each instrument of a list.
pub open spec fn instruments_view(v: Seq<Instrument>) -> Seq<InstrumentView> {
    v.map_values(|i: Instrument| i@)
}

impl View for Performance {
    type V = PerformanceView;

    open spec fn view(&self) -> PerformanceView {
        PerformanceView {
            controller: self.controller@,
            playlist: strings_view(self.playlist@),
            scenes: scenes_view(self.scenes@),
            instruments: instruments_view(self.instruments@),
        }
    }
}

// Validity ----------------------------------------------------------------------------------------

impl StepView {
    /// A step's duration, where it names one, is a rate of at least one event
    /// per measure.
    pub open spec fn valid(self) -> bool {
        self.duration != Some(0u8)
    }
}

/// A rest is valid; a step is valid as `StepView::valid` says.
pub open spec fn opt_step_valid(o: Option<StepView>) -> bool {
    match o {
        Some(s) => s.valid(),
        None => true,
    }
}

impl SequenceView {
    /// A sequence's rate, where it names one, is at least one step per measure,
    /// and each of its steps is valid.
    pub open spec fn valid(self) -> bool {
        &&& self.rate != Some(0u8)
        &&& forall|i: int| 0 <= i < self.steps.len() ==> opt_step_valid(#[trigger] self.steps[i])
    }
}

impl ModDeviceView {
    /// Channels are numbered from 1.
    pub open spec fn valid(self) -> bool {
        self.channel >= 1
    }
}

impl InstrumentView {
    /// Channels are numbered from 1, and each control binding and each sequence
    /// is valid.
    pub open spec fn valid(self) -> bool {
        &&& self.channel >= 1
        &&& match self.data {
            Some(d) => forall|i: int| 0 <= i < d.len() ==> (#[trigger] d[i]).valid(),
            None => true,
        }
        &&& forall|i: int| 0 <= i < self.sequences.len() ==> (#[trigger] self.sequences[i]).valid()
    }

    /// The name of each sequence, in order.
    pub open spec fn sequence_names(self) -> Seq<Seq<char>> {
        self.sequences.map_values(|s: SequenceView| s.name)
    }

    /// The sequence called `name`: the last one, where several have the name.
    pub open spec fn find_sequence(self, name: Seq<char>) -> Option<SequenceView> {
        match last_named(self.sequence_names(), name) {
            Some(i) => Some(self.sequences[i]),
            None => None,
        }
    }
}

impl TrackView {
    /// A track plays at least one sequence.
    pub open spec fn valid(self) -> bool {
        self.play.len() > 0
    }
}

impl SceneView {
    /// A scene has at least one track, and each of its tracks is valid.
    pub open spec fn valid(self) -> bool {
        &&& self.tracks.len() > 0
        &&& forall|i: int| 0 <= i < self.tracks.len() ==> (#[trigger] self.tracks[i]).valid()
    }
}

impl PerformanceView {
    /// Whether the track can be played: its instrument, where the performance
    /// has one of that name, is valid.
    pub open spec fn track_playable(self, track: TrackView) -> bool {
        match self.find_instrument(track.instrument) {
            Some(inst) => inst.valid(),
            None => true,
        }
    }

    /// Whether the scene can be played: it is valid, and each of its tracks can
    /// be played.
    pub open spec fn scene_playable(self, scene: SceneView) -> bool {
        &&& scene.valid()
        &&& forall|t: int|
            0 <= t < scene.tracks.len() ==> self.track_playable(#[trigger] scene.tracks[t])
    }

    /// Whether the entry of the playlist can be played: the scene of that name,
    /// where the performance has one, can be played.
    pub open spec fn entry_playable(self, name: Seq<char>) -> bool {
        match self.find_scene(name) {
            Some(scene) => self.scene_playable(scene),
            None => true,
        }
    }

    /// Whether the performance can be played. The controller's pulses per
    /// quarter note, where it names them, are at least one; the playlist is not
    /// empty; and every scene that the playlist names, with every instrument
    /// that a track of such a scene names, is valid. What the playlist never
    /// reaches is not looked at.
    pub open spec fn valid(self) -> bool {
        &&& self.controller.ppq != Some(0u64)
        &&& self.playlist.len() > 0
        &&& forall|i: int|
            0 <= i < self.playlist.len() ==> self.entry_playable(#[trigger] self.playlist[i])
    }

    /// The name of each scene, in order.
    pub open spec fn scene_names(self) -> Seq<Seq<char>> {
        self.scenes.map_values(|s: SceneView| s.name)
    }

    /// The name of each instrument, in order.
    pub open spec fn instrument_names(self) -> Seq<Seq<char>> {
        self.instruments.map_values(|i: InstrumentView| i.name)
    }

    /// The scene called `name`: the last one, where several have the name.
    pub open spec fn find_scene(self, name: Seq<char>) -> Option<SceneView> {
        match last_named(self.scene_names(), name) {
            Some(i) => Some(self.scenes[i]),
            None => None,
        }
    }

    /// The instrument called `name`: the last one, where several have the name.
    pub open spec fn find_instrument(self, name: Seq<char>) -> Option<InstrumentView> {
        match last_named(self.instrument_names(), name) {
            Some(i) => Some(self.instruments[i]),
            None => None,
        }
    }
}

/// Looking at one more name either finds it there or leaves the answer as it was.
pub proof fn lemma_last_named_step(names: Seq<Seq<char>>, i: int, name: Seq<char>)
    requires
        0 <= i < names.len(),
    ensures
        last_named(names.take(i + 1), name) == (if names[i] == name {
            Some(i)
        } else {
            last_named(names.take(i), name)
        }),
{
    assert(names.take(i + 1).drop_last() =~= names.take(i));
}

// Copies ------------------------------------------------------------------------------------------

fn clone_strings(v: &Vec<String>) -> (r: Vec<String>)
    ensures
        strings_view(r@) == strings_view(v@),
{
    let mut r: Vec<String> = Vec::new();
    let mut i: usize = 0;
    while i < v.len()
        invariant
            i <= v.len(),
            r@.len() == i,
            forall|j: int| 0 <= j < i ==> (#[trigger] r@[j])@ == v@[j]@,
        decreases v.len() - i,
    {
        r.push(v[i].clone());
        i += 1;
    }
    assert(strings_view(r@) =~= strings_view(v@));
    r
}

fn clone_opt_string(o: &Option<String>) -> (r: Option<String>)
    ensures
        opt_string_view(r) == opt_string_view(*o),
{
    match o {
        Some(s) => Some(s.clone()),
        None => None,
    }
}

fn clone_bytes(v: &Vec<u8>) -> (r: Vec<u8>)
    ensures
        r@ == v@,
{
    let mut r: Vec<u8> = Vec::new();
    let mut i: usize = 0;
    while i < v.len()
        invariant
            i <= v.len(),
            r@ == v@.take(i as int),
        decreases v.len() - i,
    {
        r.push(v[i]);
        assert(v@.take(i + 1) =~= v@.take(i as int).push(v@[i as int]));
        i += 1;
    }
    assert(v@.take(i as int) =~= v@);
    r
}

impl Clone for Track {
    fn clone(&self) -> (r: Track)
        ensures
            r@ == self@,
    {
        Track {
            instrument: self.instrument.clone(),
            follow: clone_opt_string(&self.follow),
            play: clone_strings(&self.play),
        }
    }
}

impl Clone for Scene {
    fn clone(&self) -> (r: Scene)
        ensures
            r@ == self@,
    {
        let mut tracks: Vec<Track> = Vec::new();
        let mut i: usize = 0;
        while i < self.tracks.len()
            invariant
                i <= self.tracks.len(),
                tracks@.len() == i,
                forall|j: int| 0 <= j < i ==> (#[trigger] tracks@[j])@ == self.tracks@[j]@,
            decreases self.tracks.len() - i,
        {
            tracks.push(self.tracks[i].clone());
            i += 1;
        }
        assert(tracks_view(tracks@) =~= tracks_view(self.tracks@));
        Scene { name: self.name.clone(), master: clone_opt_string(&self.master), tracks }
    }
}

impl Clone for SequenceStep {
    fn clone(&self) -> (r: SequenceStep)
        ensures
            r@ == self@,
    {
        SequenceStep {
            pitch: match &self.pitch {
                Some(p) => Some(clone_strings(p)),
                None => None,
            },
            velocity: clone_opt_string(&self.velocity),
            program: self.program,
            data: match &self.data {
                Some(d) => Some(clone_bytes(d)),
                None => None,
            },
            duration: self.duration,
        }
    }
}

impl Clone for Sequence {
    fn clone(&self) -> (r: Sequence)
        ensures
            r@ == self@,
    {
        let mut steps: Vec<Option<SequenceStep>> = Vec::new();
        let mut i: usize = 0;
        while i < self.steps.len()
            invariant
                i <= self.steps.len(),
                steps@.len() == i,
                forall|j: int|
                    0 <= j < i ==> opt_step_view(#[trigger] steps@[j]) == opt_step_view(
                        self.steps@[j],
                    ),
            decreases self.steps.len() - i,
        {
            let step = match &self.steps[i] {
                Some(s) => Some(s.clone()),
                None => None,
            };
            steps.push(step);
            i += 1;
        }
        assert(steps_view(steps@) =~= steps_view(self.steps@));
        Sequence { name: self.name.clone(), rate: self.rate, steps }
    }
}

impl Clone for ModDevice {
    fn clone(&self) -> (r: ModDevice)
        ensures
            r@ == self@,
    {
        ModDevice { device: self.device.clone(), channel: self.channel, control: self.control }
    }
}

fn clone_mod_devices(v: &Vec<ModDevice>) -> (r: Vec<ModDevice>)
    ensures
        mod_devices_view(r@) == mod_devices_view(v@),
{
    let mut r: Vec<ModDevice> = Vec::new();
    let mut i: usize = 0;
    while i < v.len()
        invariant
            i <= v.len(),
            r@.len() == i,
            forall|j: int| 0 <= j < i ==> (#[trigger] r@[j])@ == v@[j]@,
        decreases v.len() - i,
    {
        r.push(v[i].clone());
        i += 1;
    }
    assert(mod_devices_view(r@) =~= mod_devices_view(v@));
    r
}

impl Clone for Instrument {
    fn clone(&self) -> (r: Instrument)
        ensures
            r@ == self@,
    {
        let mut sequences: Vec<Sequence> = Vec::new();
        let mut i: usize = 0;
        while i < self.sequences.len()
            invariant
                i <= self.sequences.len(),
                sequences@.len() == i,
                forall|j: int| 0 <= j < i ==> (#[trigger] sequences@[j])@ == self.sequences@[j]@,
            decreases self.sequences.len() - i,
        {
            sequences.push(self.sequences[i].clone());
            i += 1;
        }
        assert(sequences_view(sequences@) =~= sequences_view(self.sequences@));
        Instrument {
            name: self.name.clone(),
            device: self.device.clone(),
            channel: self.channel,
            data: match &self.data {
                Some(d) => Some(clone_mod_devices(d)),
                None => None,
            },
            sequences,
        }
    }
}

impl Clone for Performance {
    fn clone(&self) -> (r: Performance)
        ensures
            r@ == self@,
    {
        let mut scenes: Vec<Scene> = Vec::new();
        let mut i: usize = 0;
        while i < self.scenes.len()
            invariant
                i <= self.scenes.len(),
                scenes@.len() == i,
                forall|j: int| 0 <= j < i ==> (#[trigger] scenes@[j])@ == self.scenes@[j]@,
            decreases self.scenes.len() - i,
        {
            scenes.push(self.scenes[i].clone());
            i += 1;
        }
        let mut instruments: Vec<Instrument> = Vec::new();
        let mut k: usize = 0;
        while k < self.instruments.len()
            invariant
                k <= self.instruments.len(),
                instruments@.len() == k,
                forall|j: int|
                    0 <= j < k ==> (#[trigger] instruments@[j])@ == self.instruments@[j]@,
            decreases self.instruments.len() - k,
        {
            instruments.push(self.instruments[k].clone());
            k += 1;
        }
        assert(scenes_view(scenes@) =~= scenes_view(self.scenes@));
        assert(instruments_view(instruments@) =~= instruments_view(self.instruments@));
        Performance {
            controller: self.controller.clone(),
            playlist: clone_strings(&self.playlist),
            scenes,
            instruments,
        }
    }
}

// Lookup and validity ----------------------------------------------------------------------------

impl SequenceStep {
    /// Whether the step is valid.
    pub fn is_valid(&self) -> (r: bool)
        ensures
            r == self@.valid(),
    {
        match self.duration {
            Some(d) => d != 0,
            None => true,
        }
    }
}

impl Sequence {
    /// Whether the sequence and each of its steps is valid.
    pub fn is_valid(&self) -> (r: bool)
        ensures
            r == self@.valid(),
    {
        match self.rate {
            Some(rate) => {
                if rate == 0 {
                    return false;
                }
            },
            None => {},
        }
        let mut i: usize = 0;
        while i < self.steps.len()
            invariant
                i <= self.steps.len(),
                self@.rate != Some(0u8),
                forall|j: int| 0 <= j < i ==> opt_step_valid(#[trigger] self@.steps[j]),
            decreases self.steps.len() - i,
        {
            let ok = match &self.steps[i] {
                Some(step) => step.is_valid(),
                None => true,
            };
            if !ok {
                assert(!opt_step_valid(self@.steps[i as int]));
                return false;
            }
            i += 1;
        }
        true
    }
}

impl ModDevice {
    /// Whether the binding's channel is numbered from 1.
    pub fn is_valid(&self) -> (r: bool)
        ensures
            r == self@.valid(),
    {
        self.channel >= 1
    }
}

impl Instrument {
    /// An instrument with no name, device, control bindings or sequences, on the
    /// default channel.
    pub fn new() -> (r: Instrument)
        ensures
            r@ == (InstrumentView {
                name: Seq::<char>::empty(),
                device: Seq::<char>::empty(),
                channel: DEFAULT_MIDI_CHANNEL,
                data: None,
                sequences: Seq::<SequenceView>::empty(),
            }),
    {
        let r = Instrument {
            name: String::new(),
            device: String::new(),
            channel: DEFAULT_MIDI_CHANNEL,
            data: None,
            sequences: Vec::new(),
        };
        assert(r@.sequences =~= Seq::<SequenceView>::empty());
        r
    }

    /// The index of the sequence called `name`: the last one, where several have
    /// the name.
    pub fn sequence_index(&self, name: &String) -> (r: Option<usize>)
        ensures
            match r {
                Some(i) => last_named(self@.sequence_names(), name@) == Some(i as int) && i
                    < self.sequences.len(),
                None => last_named(self@.sequence_names(), name@) is None,
            },
    {
        let ghost names = self@.sequence_names();
        let mut result: Option<usize> = None;
        let mut i: usize = 0;
        while i < self.sequences.len()
            invariant
                i <= self.sequences.len(),
                names == self@.sequence_names(),
                names.len() == self.sequences.len(),
                match result {
                    Some(k) => last_named(names.take(i as int), name@) == Some(k as int) && k < i,
                    None => last_named(names.take(i as int), name@) is None,
                },
            decreases self.sequences.len() - i,
        {
            proof {
                lemma_last_named_step(names, i as int, name@);
            }
            if self.sequences[i].name == *name {
                result = Some(i);
            }
            i += 1;
        }
        assert(names.take(i as int) =~= names);
        result
    }

    /// The sequence called `name`: the last one, where several have the name.
    pub fn find_sequence(&self, name: &String) -> (r: Option<&Sequence>)
        ensures
            match last_named(self@.sequence_names(), name@) {
                Some(i) => r == Some(&self.sequences@[i]),
                None => r is None,
            },
            sequence_opt_view(r) == self@.find_sequence(name@),
    {
        proof {
            lemma_last_named(self@.sequence_names(), name@);
        }
        match self.sequence_index(name) {
            Some(i) => Some(&self.sequences[i]),
            None => None,
        }
    }

    /// Whether the instrument, each control binding and each sequence is valid.
    pub fn is_valid(&self) -> (r: bool)
        ensures
            r == self@.valid(),
    {
        if self.channel < 1 {
            return false;
        }
        match &self.data {
            Some(d) => {
                let mut k: usize = 0;
                while k < d.len()
                    invariant
                        k <= d.len(),
                        self@.data == Some(mod_devices_view(d@)),
                        forall|j: int| 0 <= j < k ==> (#[trigger] mod_devices_view(d@)[j]).valid(),
                    decreases d.len() - k,
                {
                    if !d[k].is_valid() {
                        proof {
                            let dv = mod_devices_view(d@);
                            assert(0 <= k < dv.len());
                            assert(!dv[k as int].valid());
                            assert(self@.data == Some(dv));
                            assert(self@.data->0[k as int] == dv[k as int]);
                            assert(!self@.valid());
                        }
                        return false;
                    }
                    k += 1;
                }
            },
            None => {},
        }
        let mut i: usize = 0;
        while i < self.sequences.len()
            invariant
                i <= self.sequences.len(),
                self@.channel >= 1,
                match self@.data {
                    Some(d) => forall|j: int| 0 <= j < d.len() ==> (#[trigger] d[j]).valid(),
                    None => true,
                },
                forall|j: int| 0 <= j < i ==> (#[trigger] self@.sequences[j]).valid(),
            decreases self.sequences.len() - i,
        {
            if !self.sequences[i].is_valid() {
                assert(!self@.sequences[i as int].valid());
                return false;
            }
            i += 1;
        }
        true
    }
}

/// The view of a sequence that was looked up.
pub open spec fn sequence_opt_view(o: Option<&Sequence>) -> Option<SequenceView> {
    match o {
        Some(s) => Some(s@),
        None => None,
    }
}

/// The view of a scene that was looked up.
pub open spec fn scene_opt_view(o: Option<&Scene>) -> Option<SceneView> {
    match o {
        Some(s) => Some(s@),
        None => None,
    }
}

/// The view of an instrument that was looked up.
pub open spec fn instrument_opt_view(o: Option<&Instrument>) -> Option<InstrumentView> {
    match o {
        Some(i) => Some(i@),
        None => None,
    }
}

impl Track {
    /// Whether the track plays at least one sequence.
    pub fn is_valid(&self) -> (r: bool)
        ensures
            r == self@.valid(),
    {
        self.play.len() > 0
    }
}

impl Scene {
    /// Whether the scene has a track and each of its tracks is valid.
    pub fn is_valid(&self) -> (r: bool)
        ensures
            r == self@.valid(),
    {
        if self.tracks.len() == 0 {
            return false;
        }
        let mut i: usize = 0;
        while i < self.tracks.len()
            invariant
                i <= self.tracks.len(),
                self.tracks.len() > 0,
                forall|j: int| 0 <= j < i ==> (#[trigger] self@.tracks[j]).valid(),
            decreases self.tracks.len() - i,
        {
            if !self.tracks[i].is_valid() {
                assert(!self@.tracks[i as int].valid());
                return false;
            }
            i += 1;
        }
        true
    }
}

impl Performance {
    /// A performance with a default controller and nothing to play.
    pub fn new() -> (r: Performance)
        ensures
            r@.controller == ControllerView::initial(),
            r@.playlist == Seq::<Seq<char>>::empty(),
            r@.scenes == Seq::<SceneView>::empty(),
            r@.instruments == Seq::<InstrumentView>::empty(),
    {
        let r = Performance {
            controller: Controller::new(),
            playlist: Vec::new(),
            scenes: Vec::new(),
            instruments: Vec::new(),
        };
        assert(r@.playlist =~= Seq::<Seq<char>>::empty());
        assert(r@.scenes =~= Seq::<SceneView>::empty());
        assert(r@.instruments =~= Seq::<InstrumentView>::empty());
        r
    }

    /// The index of the scene called `name`: the last one, where several have the
    /// name.
    pub fn scene_index(&self, name: &String) -> (r: Option<usize>)
        ensures
            match r {
                Some(i) => last_named(self@.scene_names(), name@) == Some(i as int) && i
                    < self.scenes.len(),
                None => last_named(self@.scene_names(), name@) is None,
            },
    {
        let ghost names = self@.scene_names();
        let mut result: Option<usize> = None;
        let mut i: usize = 0;
        while i < self.scenes.len()
            invariant
                i <= self.scenes.len(),
                names == self@.scene_names(),
                names.len() == self.scenes.len(),
                match result {
                    Some(k) => last_named(names.take(i as int), name@) == Some(k as int) && k < i,
                    None => last_named(names.take(i as int), name@) is None,
                },
            decreases self.scenes.len() - i,
        {
            proof {
                lemma_last_named_step(names, i as int, name@);
            }
            if self.scenes[i].name == *name {
                result = Some(i);
            }
            i += 1;
        }
        assert(names.take(i as int) =~= names);
        result
    }

    /// The scene called `name`: the last one, where several have the name.
    pub fn find_scene(&self, name: &String) -> (r: Option<&Scene>)
        ensures
            match last_named(self@.scene_names(), name@) {
                Some(i) => r == Some(&self.scenes@[i]),
                None => r is None,
            },
            scene_opt_view(r) == self@.find_scene(name@),
    {
        proof {
            lemma_last_named(self@.scene_names(), name@);
        }
        match self.scene_index(name) {
            Some(i) => Some(&self.scenes[i]),
            None => None,
        }
    }

    /// The index of the instrument called `name`: the last one, where several
    /// have the name.
    pub fn instrument_index(&self, name: &String) -> (r: Option<usize>)
        ensures
            match r {
                Some(i) => last_named(self@.instrument_names(), name@) == Some(i as int) && i
                    < self.instruments.len(),
                None => last_named(self@.instrument_names(), name@) is None,
            },
    {
        let ghost names = self@.instrument_names();
        let mut result: Option<usize> = None;
        let mut i: usize = 0;
        while i < self.instruments.len()
            invariant
                i <= self.instruments.len(),
                names == self@.instrument_names(),
                names.len() == self.instruments.len(),
                match result {
                    Some(k) => last_named(names.take(i as int), name@) == Some(k as int) && k < i,
                    None => last_named(names.take(i as int), name@) is None,
                },
            decreases self.instruments.len() - i,
        {
            proof {
                lemma_last_named_step(names, i as int, name@);
            }
            if self.instruments[i].name == *name {
                result = Some(i);
            }
            i += 1;
        }
        assert(names.take(i as int) =~= names);
        result
    }

    /// The instrument called `name`: the last one, where several have the name.
    pub fn find_instrument(&self, name: &String) -> (r: Option<&Instrument>)
        ensures
            match last_named(self@.instrument_names(), name@) {
                Some(i) => r == Some(&self.instruments@[i]),
                None => r is None,
            },
            instrument_opt_view(r) == self@.find_instrument(name@),
    {
        proof {
            lemma_last_named(self@.instrument_names(), name@);
        }
        match self.instrument_index(name) {
            Some(i) => Some(&self.instruments[i]),
            None => None,
        }
    }

    /// Whether the scene at `at` can be played: `PerformanceView::scene_playable`.
    fn scene_is_playable(&self, at: usize) -> (r: bool)
        requires
            at < self.scenes.len(),
        ensures
            r == self@.scene_playable(self@.scenes[at as int]),
    {
        let scene = &self.scenes[at];
        let ghost view = self@.scenes[at as int];
        assert(view == scene@);
        if !scene.is_valid() {
            return false;
        }
        let mut t: usize = 0;
        while t < scene.tracks.len()
            invariant
                t <= scene.tracks.len(),
                view == scene@,
                view == self@.scenes[at as int],
                view.tracks.len() == scene.tracks.len(),
                view.valid(),
                forall|j: int| 0 <= j < t ==> self@.track_playable(#[trigger] view.tracks[j]),
            decreases scene.tracks.len() - t,
        {
            let track = &scene.tracks[t];
            assert(view.tracks[t as int] == track@);
            let ok = match self.find_instrument(&track.instrument) {
                Some(inst) => inst.is_valid(),
                None => true,
            };
            if !ok {
                assert(!self@.track_playable(view.tracks[t as int]));
                assert(0 <= t < view.tracks.len());
                assert(!self@.scene_playable(view));
                return false;
            }
            t += 1;
        }
        true
    }

    /// Whether the performance can be played: `PerformanceView::valid`.
    pub fn is_valid(&self) -> (r: bool)
        ensures
            r == self@.valid(),
    {
        match self.controller.ppq {
            Some(p) => {
                if p == 0 {
                    return false;
                }
            },
            None => {},
        }
        if self.playlist.len() == 0 {
            return false;
        }
        let mut i: usize = 0;
        while i < self.playlist.len()
            invariant
                i <= self.playlist.len(),
                self@.controller.ppq != Some(0u64),
                self@.playlist.len() > 0,
                forall|j: int| 0 <= j < i ==> self@.entry_playable(#[trigger] self@.playlist[j]),
            decreases self.playlist.len() - i,
        {
            assert(self@.playlist[i as int] == self.playlist[i as int]@);
            let ok = match self.scene_index(&self.playlist[i]) {
                Some(at) => self.scene_is_playable(at),
                None => true,
            };
            if !ok {
                assert(!self@.entry_playable(self@.playlist[i as int]));
                return false;
            }
            i += 1;
        }
        true
    }
}

} // verus!
