use cfgseq::controller::{
    BeatMark, ClockMultiplier, MultiplierAction, Transport, TransportKind, TransportOutput,
    IDLE_POLL_MICROS,
};
use cfgseq::models::Controller;

fn controller(device: &str, ppq: Option<u64>) -> Controller {
    Controller { device: device.to_string(), channel: 1, ppq }
}

#[test]
fn a_new_multiplier_idles() {
    let mut m = ClockMultiplier::new();
    assert!(!m.enabled());
    assert_eq!(m.tick_period(), 0);
    assert_eq!(m.step(), MultiplierAction::Idle { sleep_micros: 100 });
    assert_eq!(IDLE_POLL_MICROS, 100);
    m.set_enabled(true);
    assert_eq!(m.step(), MultiplierAction::Tick { index: 0, sleep_micros: 0 });
}

#[test]
fn the_first_period_flushes_nothing() {
    let mut m = ClockMultiplier::new();
    assert_eq!(m.on_period(20_000), Vec::<u64>::new());
    assert!(m.enabled());
    assert_eq!(m.tick_period(), 238);
}

#[test]
fn a_burst_has_one_tick_less_than_the_multiplier() {
    let mut m = ClockMultiplier::new();
    m.on_period(8_400);
    for index in 0..83u64 {
        assert_eq!(m.step(), MultiplierAction::Tick { index, sleep_micros: 100 });
    }
    for _ in 0..5 {
        assert_eq!(m.step(), MultiplierAction::Idle { sleep_micros: 100 });
    }
    assert_eq!(m.on_period(8_400), Vec::<u64>::new());
    assert_eq!(m.step(), MultiplierAction::Tick { index: 0, sleep_micros: 100 });
}

#[test]
fn ticks_are_conserved_whenever_the_next_pulse_comes() {
    for steps in [0usize, 1, 2, 40, 82, 83, 84, 200] {
        let mut m = ClockMultiplier::new();
        m.on_period(21_000);
        let mut sent: Vec<u64> = Vec::new();
        for _ in 0..steps {
            if let MultiplierAction::Tick { index, sleep_micros } = m.step() {
                assert_eq!(sleep_micros, 250);
                sent.push(index);
            }
        }
        // A jittery pulse: another period, sooner or later.
        sent.extend(m.on_period(17_000 + steps as u64));
        assert_eq!(sent, (0..83u64).collect::<Vec<u64>>(), "steps {}", steps);
        assert_eq!(m.tick_period(), (17_000 + steps as u64) / 84);
    }
}

#[test]
fn a_stopped_clock_flushes_nothing() {
    let mut m = ClockMultiplier::new();
    m.on_period(8_400);
    for _ in 0..10 {
        m.step();
    }
    m.set_enabled(false);
    assert_eq!(m.step(), MultiplierAction::Idle { sleep_micros: 100 });
    assert_eq!(m.on_period(8_400), Vec::<u64>::new());
    assert!(m.enabled());
    assert_eq!(m.step(), MultiplierAction::Tick { index: 0, sleep_micros: 100 });
}

#[test]
fn a_cycle_takes_in_the_news_and_steps() {
    let mut m = ClockMultiplier::new();
    let idle = m.cycle(None, None);
    assert!(idle.ticks.is_empty());
    assert_eq!(idle.sleep_micros, 100);

    let first = m.cycle(None, Some(84_000));
    assert_eq!(first.ticks, vec![0]);
    assert_eq!(first.sleep_micros, 1000);
    let second = m.cycle(None, None);
    assert_eq!(second.ticks, vec![1]);

    // An early pulse: the rest of the burst is flushed, then the new burst begins.
    let early = m.cycle(None, Some(42_000));
    let mut expected: Vec<u64> = (2..83).collect();
    expected.push(0);
    assert_eq!(early.ticks, expected);
    assert_eq!(early.sleep_micros, 500);

    // The word on the clock is heard before the period.
    let stopped = m.cycle(Some(false), None);
    assert!(stopped.ticks.is_empty());
    assert_eq!(stopped.sleep_micros, 100);
    let resumed = m.cycle(Some(false), Some(84_000));
    assert_eq!(resumed.ticks, vec![0]);
    assert!(m.enabled());
}

fn pulse(period: u64, beat: Option<BeatMark>, bar: bool) -> TransportOutput {
    TransportOutput {
        kind: TransportKind::Pulse,
        reset: false,
        bar,
        enable: None,
        period: Some(period),
        beat,
    }
}

#[test]
fn pulses_give_a_smoothed_period() {
    let ctrl = controller("clock", None);
    let device = "clock".to_string();
    let mut t = Transport::new(1_000);
    assert_eq!(t.last_tick(), 1_000);
    assert_eq!(t.clock_start_time(), 1_000);
    // One interval of 20 ms among 48 kept: 20 * 1000 / 48 microseconds.
    let out = t.on_message(&ctrl, &device, 248, 1_020);
    assert_eq!(out, pulse(416, Some(BeatMark { bar: 1, beat: 1 }), false));
    let out = t.on_message(&ctrl, &device, 248, 1_040);
    assert_eq!(out, pulse(833, None, false));
    for k in 3..=48u64 {
        let out = t.on_message(&ctrl, &device, 248, 1_000 + 20 * k);
        let beat = if k == 25 { Some(BeatMark { bar: 1, beat: 2 }) } else { None };
        assert_eq!(out, pulse(20 * k * 1000 / 48, beat, false), "pulse {}", k);
    }
    // The history is full: the oldest interval gives way to the newest.
    let out = t.on_message(&ctrl, &device, 248, 1_000 + 20 * 48 + 68);
    assert_eq!(out, pulse((47 * 20 + 68) * 1000 / 48, Some(BeatMark { bar: 1, beat: 3 }), false));
    assert_eq!(t.last_tick(), 1_000 + 20 * 48 + 68);
    assert!(t.has_room());
}

#[test]
fn every_fifth_beat_begins_a_bar() {
    let ctrl = controller("clock", Some(2));
    let device = "clock".to_string();
    let mut t = Transport::new(0);
    let mut marks = Vec::new();
    let mut bars = Vec::new();
    for k in 0..20u64 {
        let out = t.on_message(&ctrl, &device, 248, k);
        assert_eq!(out.kind, TransportKind::Pulse);
        assert_eq!(out.enable, None);
        if let Some(mark) = out.beat {
            marks.push((k, mark.bar, mark.beat));
        }
        assert!(!out.reset);
        if out.bar {
            bars.push(k);
        }
    }
    assert_eq!(
        marks,
        vec![
            (0, 1, 1),
            (2, 1, 2),
            (4, 1, 3),
            (6, 1, 4),
            (8, 2, 1),
            (10, 2, 2),
            (12, 2, 3),
            (14, 2, 4),
            (16, 3, 1),
            (18, 3, 2),
        ]
    );
    assert_eq!(bars, vec![8, 16]);
}

#[test]
fn start_and_stop_are_passed_on() {
    let ctrl = controller("clock", Some(24));
    let device = "clock".to_string();
    let mut t = Transport::new(0);
    for k in 1..=30u64 {
        t.on_message(&ctrl, &device, 248, 10 * k);
    }
    let stop = t.on_message(&ctrl, &device, 252, 400);
    assert_eq!(
        stop,
        TransportOutput {
            kind: TransportKind::Stop,
            reset: true,
            bar: false,
            enable: Some(false),
            period: None,
            beat: None
        }
    );
    assert_eq!(t.clock_start_time(), 400);
    assert_eq!(t.last_tick(), 300);
    let start = t.on_message(&ctrl, &device, 250, 500);
    assert_eq!(
        start,
        TransportOutput {
            kind: TransportKind::Start,
            reset: false,
            bar: false,
            enable: Some(true),
            period: None,
            beat: None
        }
    );
    assert_eq!(t.clock_start_time(), 500);
    assert_eq!(t.last_tick(), 500);
    // Counting begins anew; the intervals kept are still the old ones.
    let out = t.on_message(&ctrl, &device, 248, 510);
    assert_eq!(out, pulse(30 * 10 * 1000 / 48, Some(BeatMark { bar: 1, beat: 1 }), false));
}

#[test]
fn other_devices_and_messages_are_ignored() {
    let ctrl = controller("clock", Some(24));
    let mut t = Transport::new(50);
    let quiet = TransportOutput {
        kind: TransportKind::Ignored,
        reset: false,
        bar: false,
        enable: None,
        period: None,
        beat: None,
    };
    assert_eq!(t.on_message(&ctrl, &"keys".to_string(), 248, 60), quiet);
    assert_eq!(t.on_message(&ctrl, &"keys".to_string(), 252, 60), quiet);
    assert_eq!(t.on_message(&ctrl, &"clock".to_string(), 0x90, 60), quiet);
    assert_eq!(t.on_message(&ctrl, &"clock".to_string(), 251, 60), quiet);
    assert_eq!(t.last_tick(), 50);
    assert_eq!(t.clock_start_time(), 50);
    let out = t.on_message(&ctrl, &"clock".to_string(), 248, 98);
    assert_eq!(out, pulse(1000, Some(BeatMark { bar: 1, beat: 1 }), false));
}

#[test]
fn a_huge_interval_caps_the_period() {
    let ctrl = controller("clock", Some(24));
    let mut t = Transport::new(0);
    let out = t.on_message(&ctrl, &"clock".to_string(), 248, u64::MAX);
    assert_eq!(out.period, Some(u64::MAX));
    let mut t = Transport::new(0);
    let out = t.on_message(&ctrl, &"clock".to_string(), 248, u64::MAX / 1000 * 48);
    assert_eq!(out.period, Some(u64::MAX / 1000 * 1000));
}
