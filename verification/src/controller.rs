//! The clock side of the engine: the multiplier that turns each pulse of the
//! external clock into a burst of fine ticks, and the transport that derives
//! periods, beats and bar boundaries from the pulses.

use vstd::prelude::*;
use crate::config::{CLOCK_MULTIPLIER, DEFAULT_PARTS_PER_QUARTER};
use crate::models::{Controller, ControllerView};

verus! {

// Clock Multiplier --------------------------------------------------------------------------------

/// Microseconds the multiplier waits before it looks for news again, when it has
/// no tick to send.
pub const IDLE_POLL_MICROS: u64 = 100;

/// The number of fine ticks in one burst: the indices below this are sent.
pub open spec fn burst_len() -> nat {
    (CLOCK_MULTIPLIER - 1) as nat
}

/// The tick indices from `from` up to the end of a burst, in order.
pub open spec fn burst_from(from: nat) -> Seq<u64> {
    if from >= burst_len() {
        Seq::empty()
    } else {
        Seq::new((burst_len() - from) as nat, |i: int| (from + i) as u64)
    }
}

/// The multiplier as the contracts see it.
pub struct MultiplierState {
    pub enabled: bool,
    pub tick_period: u64,
    pub tick_index: nat,
}

impl MultiplierState {
    /// Whether a tick is due: the clock runs and the burst is not exhausted.
    pub open spec fn tick_due(self) -> bool {
        self.enabled && self.tick_index < burst_len()
    }

    /// The same multiplier with the clock switched on or off.
    pub open spec fn set_enabled_next(self, enabled: bool) -> MultiplierState {
        MultiplierState { enabled, ..self }
    }

    /// The ticks that a new period flushes: what is left of the burst, where the
    /// clock runs; nothing where it does not.
    pub open spec fn flushed_ticks(self) -> Seq<u64> {
        if self.enabled {
            burst_from(self.tick_index)
        } else {
            Seq::empty()
        }
    }

    /// The multiplier after a pulse of the external clock that came `period`
    /// microseconds after the one before: a new burst begins, the clock runs, and
    /// its ticks are spaced evenly over the period.
    pub open spec fn period_next(self, period: u64) -> MultiplierState {
        MultiplierState {
            enabled: true,
            tick_period: period / CLOCK_MULTIPLIER,
            tick_index: 0,
        }
    }

    /// The multiplier after one step of its steady state.
    pub open spec fn step_next(self) -> MultiplierState {
        if self.tick_due() {
            MultiplierState { tick_index: self.tick_index + 1, ..self }
        } else {
            self
        }
    }

    /// What one step of the steady state does.
    pub open spec fn step_action(self) -> MultiplierAction {
        if self.tick_due() {
            MultiplierAction::Tick { index: self.tick_index as u64, sleep_micros: self.tick_period }
        } else {
            MultiplierAction::Idle { sleep_micros: IDLE_POLL_MICROS }
        }
    }

    /// The ticks that one step sends: one or none.
    pub open spec fn step_ticks(self) -> Seq<u64> {
        if self.tick_due() {
            seq![self.tick_index as u64]
        } else {
            Seq::empty()
        }
    }

    /// The multiplier after `n` steps of its steady state.
    pub open spec fn steps_next(self, n: nat) -> MultiplierState
        decreases n,
    {
        if n == 0 {
            self
        } else {
            self.steps_next((n - 1) as nat).step_next()
        }
    }

    /// The ticks that `n` steps of the steady state send, in order.
    pub open spec fn steps_ticks(self, n: nat) -> Seq<u64>
        decreases n,
    {
        if n == 0 {
            Seq::empty()
        } else {
            self.steps_ticks((n - 1) as nat) + self.steps_next((n - 1) as nat).step_ticks()
        }
    }
}

/// What the multiplier's owner is to do after one step: send a tick and sleep
/// for the tick period, or just sleep for the idle interval.
#[derive(Clone, Copy, Debug, PartialEq, Eq, Structural)]
pub enum MultiplierAction {
    Tick { index: u64, sleep_micros: u64 },
    Idle { sleep_micros: u64 },
}

/// Multiplies the external clock: for each of its pulses, a burst of fine ticks.
pub struct ClockMultiplier {
    enabled: bool,
    tick_period: u64,
    tick_index: u64,
}

impl View for ClockMultiplier {
    type V = MultiplierState;

    closed spec fn view(&self) -> MultiplierState {
        MultiplierState {
            enabled: self.enabled,
            tick_period: self.tick_period,
            tick_index: self.tick_index as nat,
        }
    }
}

impl ClockMultiplier {
    /// A multiplier that waits for the first pulse: the clock does not run yet.
    pub fn new() -> (r: ClockMultiplier)
        ensures
            r@ == (MultiplierState { enabled: false, tick_period: 0, tick_index: 0 }),
    {
        ClockMultiplier { enabled: false, tick_period: 0, tick_index: 0 }
    }

    /// Whether the clock runs.
    pub fn enabled(&self) -> (r: bool)
        ensures
            r == self@.enabled,
    {
        self.enabled
    }

    /// Microseconds between two ticks of the burst.
    pub fn tick_period(&self) -> (r: u64)
        ensures
            r == self@.tick_period,
    {
        self.tick_period
    }

    /// Switches the clock on or off, as the transport says.
    pub fn set_enabled(&mut self, enabled: bool)
        ensures
            final(self)@ == old(self)@.set_enabled_next(enabled),
    {
        self.enabled = enabled;
    }

    /// Takes in a pulse of the external clock that came `period` microseconds
    /// after the one before. Where the clock runs and the burst before was not
    /// finished, what is left of it is given back, to be sent at once. Then a new
    /// burst begins.
    pub fn on_period(&mut self, period: u64) -> (flushed: Vec<u64>)
        ensures
            flushed@ == old(self)@.flushed_ticks(),
            final(self)@ == old(self)@.period_next(period),
    {
        let ghost pre = self@;
        let mut flushed: Vec<u64> = Vec::new();
        assert(flushed@ =~= Seq::new(0nat, |i: int| (pre.tick_index + i) as u64));
        while self.enabled && self.tick_index < CLOCK_MULTIPLIER - 1
            invariant
                pre.tick_index <= self.tick_index,
                self.tick_index <= burst_len() || self.tick_index == pre.tick_index,
                !pre.enabled ==> self.tick_index == pre.tick_index,
                self.enabled == pre.enabled,
                flushed@ == Seq::new(
                    (self.tick_index - pre.tick_index) as nat,
                    |i: int| (pre.tick_index + i) as u64,
                ),
            decreases burst_len() - self.tick_index,
        {
            flushed.push(self.tick_index);
            self.tick_index += 1;
            assert(flushed@ =~= Seq::new(
                (self.tick_index - pre.tick_index) as nat,
                |i: int| (pre.tick_index + i) as u64,
            ));
        }
        proof {
            if pre.enabled && pre.tick_index < burst_len() {
                assert(self.tick_index == burst_len());
                assert(flushed@ =~= burst_from(pre.tick_index));
            } else {
                assert(self.tick_index == pre.tick_index);
                assert(flushed@ =~= pre.flushed_ticks());
            }
        }
        self.tick_period = period / CLOCK_MULTIPLIER;
        self.enabled = true;
        self.tick_index = 0;
        flushed
    }

    /// One step of the steady state: where the clock runs and the burst is not
    /// exhausted, the next tick is due, followed by a sleep of one tick period;
    /// else there is nothing to do but to look again after the idle interval.
    pub fn step(&mut self) -> (action: MultiplierAction)
        ensures
            action == old(self)@.step_action(),
            final(self)@ == old(self)@.step_next(),
    {
        if self.enabled && self.tick_index < CLOCK_MULTIPLIER - 1 {
            let index = self.tick_index;
            self.tick_index += 1;
            MultiplierAction::Tick { index, sleep_micros: self.tick_period }
        } else {
            MultiplierAction::Idle { sleep_micros: IDLE_POLL_MICROS }
        }
    }
}

/// What one turn of the multiplier's loop hands its owner: the ticks to send, in
/// order, and the microseconds to sleep afterwards.
#[derive(Debug)]
pub struct MultiplierCycle {
    pub ticks: Vec<u64>,
    pub sleep_micros: u64,
}

impl MultiplierState {
    /// The multiplier after the news of one turn were taken in: first the
    /// transport's word on whether the clock runs, then the new period.
    pub open spec fn informed(self, enable: Option<bool>, period: Option<u64>) -> MultiplierState {
        let heard = match enable {
            Some(e) => self.set_enabled_next(e),
            None => self,
        };
        match period {
            Some(p) => heard.period_next(p),
            None => heard,
        }
    }

    /// The ticks that the news of one turn flush.
    pub open spec fn informed_ticks(self, enable: Option<bool>, period: Option<u64>) -> Seq<u64> {
        let heard = match enable {
            Some(e) => self.set_enabled_next(e),
            None => self,
        };
        match period {
            Some(p) => heard.flushed_ticks(),
            None => Seq::empty(),
        }
    }
}

impl ClockMultiplier {
    /// One turn of the multiplier's loop: takes in the transport's word on
    /// whether the clock runs, if there is one, then the new period, if there is
    /// one, and then makes one step of the steady state. Gives the ticks to send,
    /// flushed ones first, and the time to sleep.
    pub fn cycle(&mut self, enable: Option<bool>, period: Option<u64>) -> (r: MultiplierCycle)
        ensures
            final(self)@ == old(self)@.informed(enable, period).step_next(),
            r.ticks@ == old(self)@.informed_ticks(enable, period) + old(self)@.informed(
                enable,
                period,
            ).step_ticks(),
            r.sleep_micros == (match old(self)@.informed(enable, period).step_action() {
                MultiplierAction::Tick { sleep_micros, .. } => sleep_micros,
                MultiplierAction::Idle { sleep_micros } => sleep_micros,
            }),
    {
        match enable {
            Some(e) => {
                self.set_enabled(e);
            },
            None => {},
        }
        let mut ticks: Vec<u64> = match period {
            Some(p) => self.on_period(p),
            None => Vec::new(),
        };
        let ghost flushed = ticks@;
        match self.step() {
            MultiplierAction::Tick { index, sleep_micros } => {
                ticks.push(index);
                assert(ticks@ =~= flushed + seq![index]);
                MultiplierCycle { ticks, sleep_micros }
            },
            MultiplierAction::Idle { sleep_micros } => {
                assert(ticks@ =~= flushed + Seq::<u64>::empty());
                MultiplierCycle { ticks, sleep_micros }
            },
        }
    }
}

/// After a pulse, `n` steps of the steady state have sent the first `n` ticks
/// of the burst, or all of it.
proof fn lemma_steps_after_period(started: MultiplierState, n: nat)
    requires
        started.enabled,
        started.tick_index == 0,
    ensures
        started.steps_next(n) == (MultiplierState {
            tick_index: if n <= burst_len() { n } else { burst_len() },
            ..started
        }),
        started.steps_ticks(n) == Seq::new(
            if n <= burst_len() { n } else { burst_len() },
            |i: int| i as u64,
        ),
    decreases n,
{
    if n == 0 {
        assert(started.steps_ticks(0) =~= Seq::new(0nat, |i: int| i as u64));
    } else {
        lemma_steps_after_period(started, (n - 1) as nat);
        let m: nat = if n <= burst_len() { n } else { burst_len() };
        assert(started.steps_ticks(n) =~= Seq::new(m, |i: int| i as u64));
    }
}

/// Tick conservation. From one pulse of the external clock to the next, with
/// the clock running throughout, the multiplier sends every tick of the burst
/// exactly once and in order, however many steps of its steady state fit in
/// between: what the steps did not send, the next pulse flushes.
pub proof fn lemma_tick_conservation(before: MultiplierState, period: u64, steps: nat)
    ensures
        ({
            let started = before.period_next(period);
            started.steps_ticks(steps) + started.steps_next(steps).flushed_ticks()
        }) == Seq::new(burst_len(), |i: int| i as u64),
        burst_len() == CLOCK_MULTIPLIER - 1,
{
    let started = before.period_next(period);
    lemma_steps_after_period(started, steps);
    assert(started.steps_ticks(steps) + started.steps_next(steps).flushed_ticks() =~= Seq::new(
        burst_len(),
        |i: int| i as u64,
    ));
}

// Transport ---------------------------------------------------------------------------------------

/// Status byte of a pulse of the external clock.
pub const STATUS_TIMING_CLOCK: u8 = 248;

/// Status byte of the transport's start.
pub const STATUS_START: u8 = 250;

/// Status byte of the transport's stop.
pub const STATUS_STOP: u8 = 252;

/// The number of pulse intervals the period is averaged over.
pub const PERIOD_HISTORY: usize = 48;

/// Beats in a bar.
pub const BEATS_PER_BAR: usize = 4;

/// The sum of a list of intervals.
pub open spec fn intervals_sum(intervals: Seq<u64>) -> nat
    decreases intervals.len(),
{
    if intervals.len() == 0 {
        0
    } else {
        intervals_sum(intervals.drop_last()) + intervals.last() as nat
    }
}

/// The period handed to the multiplier, in microseconds: the mean of the
/// intervals kept, which are in milliseconds, cut off at the largest number the
/// machine holds.
pub open spec fn smoothed_period(intervals: Seq<u64>) -> u64 {
    let micros = intervals_sum(intervals) * 1000 / (PERIOD_HISTORY as nat);
    if micros <= u64::MAX {
        micros as u64
    } else {
        u64::MAX
    }
}

/// Pulses per quarter note that a controller asks for: its own, or the default.
pub open spec fn pulses_per_quarter(ctrl: ControllerView) -> u64 {
    match ctrl.ppq {
        Some(p) => p,
        None => DEFAULT_PARTS_PER_QUARTER,
    }
}

/// What kind of message the transport saw.
#[derive(Clone, Copy, Debug, PartialEq, Eq, Structural)]
pub enum TransportKind {
    /// Not a transport message of the controller's device.
    Ignored,
    /// A pulse of the external clock.
    Pulse,
    /// The transport started.
    Start,
    /// The transport stopped.
    Stop,
}

/// A beat that began with a pulse: the bar and the beat within it, both counted
/// from 1.
#[derive(Clone, Copy, Debug, PartialEq, Eq, Structural)]
pub struct BeatMark {
    pub bar: usize,
    pub beat: usize,
}

/// What the owner of the transport is to pass on after one message.
#[derive(Clone, Copy, Debug, PartialEq, Eq, Structural)]
pub struct TransportOutput {
    /// The kind of message that was seen.
    pub kind: TransportKind,
    /// Whether the performance is to be reset: silenced and started over.
    pub reset: bool,
    /// Whether a measure is full, so that the performance is to start its next bar.
    pub bar: bool,
    /// The word for the multiplier on whether the clock runs, if there is one.
    pub enable: Option<bool>,
    /// The period for the multiplier, in microseconds, if there is one.
    pub period: Option<u64>,
    /// The beat that began, if one did.
    pub beat: Option<BeatMark>,
}

/// The transport as the contracts see it: pulses since the start, the beat
/// within the bar, the bar, the time of the last pulse and of the last start or
/// stop, in milliseconds, and the last intervals between pulses.
pub struct TransportState {
    pub clock_count: nat,
    pub beat_count: nat,
    pub bar_count: nat,
    pub last_tick: u64,
    pub clock_start_time: u64,
    pub history: Seq<u64>,
}

impl TransportState {
    /// The intervals kept are as many as the period is averaged over, and the
    /// beat is within the bar.
    pub open spec fn wf(self) -> bool {
        &&& self.history.len() == PERIOD_HISTORY
        &&& self.beat_count <= BEATS_PER_BAR
    }

    /// The counters can count one more pulse and one more bar.
    pub open spec fn room(self) -> bool {
        &&& self.clock_count < usize::MAX
        &&& self.bar_count < usize::MAX
    }

    /// A transport made at time `now`, before any pulse.
    pub open spec fn initial(now: u64) -> TransportState {
        TransportState {
            clock_count: 0,
            beat_count: 0,
            bar_count: 1,
            last_tick: now,
            clock_start_time: now,
            history: Seq::new(PERIOD_HISTORY as nat, |i: int| 0u64),
        }
    }

    /// Whether a pulse begins a beat: every `ppq` pulses one does.
    pub open spec fn beat_due(self, ppq: u64) -> bool {
        self.clock_count % (ppq as nat) == 0
    }

    /// Whether a pulse begins a bar: it begins a beat, and the bar's beats are
    /// used up.
    pub open spec fn bar_due(self, ppq: u64) -> bool {
        self.beat_due(ppq) && self.beat_count + 1 > BEATS_PER_BAR
    }

    /// The intervals kept after a pulse at `now`: the newest takes the place of
    /// the oldest.
    pub open spec fn pulse_history(self, now: u64) -> Seq<u64> {
        self.history.update(
            (self.clock_count % (PERIOD_HISTORY as nat)) as int,
            (now - self.last_tick) as u64,
        )
    }

    /// The transport after a pulse at `now`.
    pub open spec fn pulse_next(self, ppq: u64, now: u64) -> TransportState {
        TransportState {
            clock_count: self.clock_count + 1,
            beat_count: if self.bar_due(ppq) {
                1
            } else if self.beat_due(ppq) {
                self.beat_count + 1
            } else {
                self.beat_count
            },
            bar_count: if self.bar_due(ppq) {
                self.bar_count + 1
            } else {
                self.bar_count
            },
            last_tick: now,
            clock_start_time: self.clock_start_time,
            history: self.pulse_history(now),
        }
    }

    /// What a pulse at `now` passes on: the smoothed period, always; the beat,
    /// where one begins; the bar boundary, where a bar begins.
    pub open spec fn pulse_output(self, ppq: u64, now: u64) -> TransportOutput {
        let next = self.pulse_next(ppq, now);
        TransportOutput {
            kind: TransportKind::Pulse,
            reset: false,
            bar: self.bar_due(ppq),
            enable: None,
            period: Some(smoothed_period(self.pulse_history(now))),
            beat: if self.beat_due(ppq) {
                Some(BeatMark { bar: next.bar_count as usize, beat: next.beat_count as usize })
            } else {
                None
            },
        }
    }

    /// The transport after a start at `now`: all counters back at their
    /// beginning.
    pub open spec fn start_next(self, now: u64) -> TransportState {
        TransportState {
            clock_count: 0,
            beat_count: 0,
            bar_count: 1,
            last_tick: now,
            clock_start_time: now,
            history: self.history,
        }
    }

    /// The transport after a stop at `now`.
    pub open spec fn stop_next(self, now: u64) -> TransportState {
        TransportState { clock_start_time: now, ..self }
    }

    /// Whether a message is a pulse of the controller's device.
    pub open spec fn is_pulse(ctrl: ControllerView, device: Seq<char>, status: u8) -> bool {
        device == ctrl.device && status == STATUS_TIMING_CLOCK
    }

    /// The transport after a message with status byte `status` from the device
    /// called `device`, at time `now`.
    pub open spec fn message_next(
        self,
        ctrl: ControllerView,
        device: Seq<char>,
        status: u8,
        now: u64,
    ) -> TransportState {
        if device != ctrl.device {
            self
        } else if status == STATUS_TIMING_CLOCK {
            self.pulse_next(pulses_per_quarter(ctrl), now)
        } else if status == STATUS_START {
            self.start_next(now)
        } else if status == STATUS_STOP {
            self.stop_next(now)
        } else {
            self
        }
    }

    /// What such a message passes on. A start switches the clock on; a stop
    /// switches it off and resets the performance.
    pub open spec fn message_output(
        self,
        ctrl: ControllerView,
        device: Seq<char>,
        status: u8,
        now: u64,
    ) -> TransportOutput {
        if device != ctrl.device {
            TransportOutput::spec_quiet(TransportKind::Ignored)
        } else if status == STATUS_TIMING_CLOCK {
            self.pulse_output(pulses_per_quarter(ctrl), now)
        } else if status == STATUS_START {
            TransportOutput {
                kind: TransportKind::Start,
                reset: false,
                bar: false,
                enable: Some(true),
                period: None,
                beat: None,
            }
        } else if status == STATUS_STOP {
            TransportOutput {
                kind: TransportKind::Stop,
                reset: true,
                bar: false,
                enable: Some(false),
                period: None,
                beat: None,
            }
        } else {
            TransportOutput::spec_quiet(TransportKind::Ignored)
        }
    }
}

impl TransportOutput {
    /// An output of `kind` that passes nothing on.
    pub open spec fn spec_quiet(kind: TransportKind) -> TransportOutput {
        TransportOutput { kind, reset: false, bar: false, enable: None, period: None, beat: None }
    }

    fn quiet(kind: TransportKind) -> (r: TransportOutput)
        ensures
            r == TransportOutput::spec_quiet(kind),
    {
        TransportOutput { kind, reset: false, bar: false, enable: None, period: None, beat: None }
    }
}

/// Derives periods, beats and bar boundaries from the transport messages of the
/// controller's device.
pub struct Transport {
    clock_count: usize,
    beat_count: usize,
    bar_count: usize,
    last_tick: u64,
    clock_start_time: u64,
    history: Vec<u64>,
}

impl View for Transport {
    type V = TransportState;

    closed spec fn view(&self) -> TransportState {
        TransportState {
            clock_count: self.clock_count as nat,
            beat_count: self.beat_count as nat,
            bar_count: self.bar_count as nat,
            last_tick: self.last_tick,
            clock_start_time: self.clock_start_time,
            history: self.history@,
        }
    }
}

/// The period for the multiplier, from the intervals kept.
fn period_of(history: &Vec<u64>) -> (r: u64)
    ensures
        r == smoothed_period(history@),
{
    let mut sum: u128 = 0;
    let mut i: usize = 0;
    assert(history@.take(0) =~= Seq::<u64>::empty());
    while i < history.len()
        invariant
            i <= history.len(),
            sum == intervals_sum(history@.take(i as int)),
            sum <= i * u64::MAX,
        decreases history.len() - i,
    {
        assert(history@.take(i + 1).drop_last() =~= history@.take(i as int));
        assert((i + 1) * u64::MAX == i * u64::MAX + u64::MAX) by (nonlinear_arith);
        assert(i * u64::MAX <= usize::MAX * u64::MAX) by (nonlinear_arith)
            requires
                i <= usize::MAX,
        ;
        sum = sum + history[i] as u128;
        i += 1;
    }
    assert(history@.take(i as int) =~= history@);
    if sum > u64::MAX as u128 {
        // The mean of 48 intervals, a thousandfold, is above the sum itself.
        assert(sum * 1000 / 48 > u64::MAX) by (nonlinear_arith)
            requires
                sum > u64::MAX,
        ;
        return u64::MAX;
    }
    let micros: u128 = sum * 1000 / 48;
    if micros > u64::MAX as u128 {
        u64::MAX
    } else {
        micros as u64
    }
}

impl Transport {
    /// A transport made at time `now`, in milliseconds, before any pulse.
    pub fn new(now: u64) -> (r: Transport)
        ensures
            r@ == TransportState::initial(now),
            r@.wf(),
    {
        let mut history: Vec<u64> = Vec::new();
        let mut i: usize = 0;
        while i < PERIOD_HISTORY
            invariant
                i <= PERIOD_HISTORY,
                history@ == Seq::new(i as nat, |j: int| 0u64),
            decreases PERIOD_HISTORY - i,
        {
            history.push(0);
            assert(history@ =~= Seq::new((i + 1) as nat, |j: int| 0u64));
            i += 1;
        }
        Transport {
            clock_count: 0,
            beat_count: 0,
            bar_count: 1,
            last_tick: now,
            clock_start_time: now,
            history,
        }
    }

    /// The time of the last start or stop, in milliseconds.
    pub fn clock_start_time(&self) -> (r: u64)
        ensures
            r == self@.clock_start_time,
    {
        self.clock_start_time
    }

    /// The time of the last pulse, in milliseconds.
    pub fn last_tick(&self) -> (r: u64)
        ensures
            r == self@.last_tick,
    {
        self.last_tick
    }

    /// Whether the counters can count one more pulse and one more bar.
    pub fn has_room(&self) -> (r: bool)
        ensures
            r == self@.room(),
    {
        self.clock_count < usize::MAX && self.bar_count < usize::MAX
    }

    /// Takes in one message: its status byte, the name of the device it came
    /// from, and the time it came at, in milliseconds. Messages of other devices
    /// than the controller's, and other messages than pulse, start and stop, are
    /// ignored. A pulse is counted, its distance to the pulse before goes into
    /// the mean that the period is taken from, and every `ppq` pulses a beat
    /// begins, every four beats a bar. A start puts the counters back and
    /// switches the clock on; a stop switches it off and asks for a reset.
    pub fn on_message(&mut self, ctrl: &Controller, device_name: &String, status: u8, now: u64) -> (out:
        TransportOutput)
        requires
            old(self)@.wf(),
            TransportState::is_pulse(ctrl@, device_name@, status) ==> {
                &&& old(self)@.room()
                &&& ctrl@.ppq != Some(0u64)
                &&& now >= old(self)@.last_tick
            },
        ensures
            final(self)@ == old(self)@.message_next(ctrl@, device_name@, status, now),
            out == old(self)@.message_output(ctrl@, device_name@, status, now),
            final(self)@.wf(),
    {
        if !(*device_name == ctrl.device) {
            return TransportOutput::quiet(TransportKind::Ignored);
        }
        if status == STATUS_TIMING_CLOCK {
            let ppq: u64 = match ctrl.ppq {
                Some(p) => p,
                None => DEFAULT_PARTS_PER_QUARTER,
            };
            let elapsed = now - self.last_tick;
            self.last_tick = now;
            let slot = self.clock_count % PERIOD_HISTORY;
            self.history[slot] = elapsed;
            let mut bar = false;
            let mut beat: Option<BeatMark> = None;
            if (self.clock_count as u64) % ppq == 0 {
                self.beat_count += 1;
                if self.beat_count > BEATS_PER_BAR {
                    self.beat_count = 1;
                    self.bar_count += 1;
                    bar = true;
                }
                beat = Some(BeatMark { bar: self.bar_count, beat: self.beat_count });
            }
            let period = period_of(&self.history);
            self.clock_count += 1;
            TransportOutput {
                kind: TransportKind::Pulse,
                reset: false,
                bar,
                enable: None,
                period: Some(period),
                beat,
            }
        } else if status == STATUS_START {
            self.beat_count = 0;
            self.bar_count = 1;
            self.clock_count = 0;
            self.last_tick = now;
            self.clock_start_time = now;
            TransportOutput {
                kind: TransportKind::Start,
                reset: false,
                bar: false,
                enable: Some(true),
                period: None,
                beat: None,
            }
        } else if status == STATUS_STOP {
            self.clock_start_time = now;
            TransportOutput {
                kind: TransportKind::Stop,
                reset: true,
                bar: false,
                enable: Some(false),
                period: None,
                beat: None,
            }
        } else {
            TransportOutput::quiet(TransportKind::Ignored)
        }
    }
}

} // verus!
