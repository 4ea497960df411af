use cfgseq::midi::{
    control_change, note_off, note_on, program_change, DeviceManager, DeviceWrite, OutMessage,
};
use cfgseq::models::{Instrument, ModDevice, Sequence, SequenceStep};
use cfgseq::sequence_player::{PlayerClockResult, SequencePlayer};

fn note(pitch: &str, duration: Option<u8>) -> Option<SequenceStep> {
    Some(SequenceStep {
        pitch: Some(vec![pitch.to_string()]),
        velocity: None,
        program: None,
        data: None,
        duration,
    })
}

fn instrument(channel: u8, sequences: Vec<Sequence>) -> Instrument {
    Instrument {
        name: "lead".to_string(),
        device: "synth".to_string(),
        channel,
        data: None,
        sequences,
    }
}

fn player(rate: Option<u8>, steps: Vec<Option<SequenceStep>>) -> SequencePlayer {
    let sequence = Sequence { name: "riff".to_string(), rate, steps };
    SequencePlayer::new(instrument(1, vec![sequence]), "riff".to_string())
}

/// Clocks the player `ticks` times and gives each message with the tick it was sent in.
fn run(player: &mut SequencePlayer, ticks: usize) -> Vec<(usize, String, OutMessage)> {
    let mut sink = DeviceManager::new();
    let mut sent = Vec::new();
    for tick in 0..ticks {
        player.clock(&mut sink);
        for write in sink.take() {
            for message in write.messages {
                sent.push((tick, write.device.clone(), message));
            }
        }
    }
    sent
}

fn synth(tick: usize, message: OutMessage) -> (usize, String, OutMessage) {
    (tick, "synth".to_string(), message)
}

#[test]
fn quarter_notes_sound_for_one_step() {
    let mut p = player(Some(4), vec![note("C4", Some(4)), None, note("E4", None), None]);
    let sent = run(&mut p, 8064);
    assert_eq!(
        sent,
        vec![
            synth(0, note_on(0, 60, 100)),
            synth(2016, note_off(0, 60, 0)),
            synth(4032, note_on(0, 64, 100)),
            synth(6048, note_off(0, 64, 0)),
        ]
    );
    assert_eq!(p.step_index(), 4);
    assert_eq!(p.clock_count(), 8064);
    assert_eq!(p.remaining(60), None);
    assert_eq!(p.remaining(64), None);
}

#[test]
fn a_new_player_has_played_nothing() {
    let p = player(None, vec![note("C4", None)]);
    assert_eq!(p.step_index(), 0);
    assert_eq!(p.clock_count(), 0);
    assert_eq!(p.bar_count(), 0);
    assert_eq!(p.bar_count, 0);
    assert_eq!(p.seq_name(), "riff");
    assert_eq!(p.instrument().name, "lead");
    for pitch in 0..=255u8 {
        assert_eq!(p.remaining(pitch), None);
    }
    assert_eq!(
        PlayerClockResult::new(),
        PlayerClockResult { note_was_played: false, sequence_ended: false }
    );
}

#[test]
fn deadlines_count_down_tick_by_tick() {
    let mut p = player(Some(16), vec![note("60", Some(32))]);
    let mut sink = DeviceManager::new();
    let first = p.clock(&mut sink);
    assert!(first.note_was_played);
    assert!(!first.sequence_ended);
    assert_eq!(p.remaining(60), Some(252));
    assert_eq!(p.step_index(), 1);
    for left in (1..252).rev() {
        let r = p.clock(&mut sink);
        assert!(!r.note_was_played);
        assert_eq!(p.remaining(60), Some(left));
    }
    assert_eq!(sink.take().len(), 1);
    p.clock(&mut sink);
    assert_eq!(p.remaining(60), None);
    let out = sink.take();
    assert_eq!(out.len(), 1);
    assert_eq!(out[0].device, "synth");
    assert_eq!(out[0].messages, vec![note_off(0, 60, 0)]);
    assert_eq!(p.clock_count(), 253);
}

#[test]
fn a_retrigger_overwrites_the_deadline() {
    // The first C5 would sound a whole measure; the second, one step later,
    // cuts that down to one step. One note-off in all.
    let mut p = player(Some(4), vec![note("C4", Some(1)), note("C4", Some(4)), None, None]);
    let mut sink = DeviceManager::new();
    p.clock(&mut sink);
    assert_eq!(p.remaining(60), Some(8064));
    for _ in 1..2016 {
        p.clock(&mut sink);
    }
    assert_eq!(p.remaining(60), Some(8064 - 2015));
    p.clock(&mut sink);
    assert_eq!(p.remaining(60), Some(2016));
    sink.take();

    let mut again = player(Some(4), vec![note("C4", Some(1)), note("C4", Some(4)), None, None]);
    let sent = run(&mut again, 3 * 8064);
    assert_eq!(
        sent,
        vec![
            synth(0, note_on(0, 60, 100)),
            synth(2016, note_on(0, 60, 100)),
            synth(4032, note_off(0, 60, 0)),
        ]
    );
}

#[test]
fn a_note_off_comes_before_the_note_on_of_the_same_tick() {
    let mut p = player(Some(4), vec![note("C4", None), note("C4", None)]);
    let mut sink = DeviceManager::new();
    for _ in 0..2016 {
        p.clock(&mut sink);
    }
    sink.take();
    let r = p.clock(&mut sink);
    assert!(r.note_was_played);
    let out = sink.take();
    assert_eq!(out.len(), 2);
    assert_eq!(out[0].messages, vec![note_off(0, 60, 0)]);
    assert_eq!(out[1].messages, vec![note_on(0, 60, 100)]);
    assert_eq!(p.remaining(60), Some(2016));
}

#[test]
fn note_offs_of_one_tick_come_in_ascending_pitch() {
    let chord = Some(SequenceStep {
        pitch: Some(vec!["G4".to_string(), "C4".to_string(), "E4".to_string(), "C4".to_string()]),
        velocity: Some("64".to_string()),
        program: None,
        data: None,
        duration: Some(8),
    });
    let mut p = player(Some(1), vec![chord]);
    let sent = run(&mut p, 2000);
    assert_eq!(
        sent,
        vec![
            synth(0, note_on(0, 67, 64)),
            synth(0, note_on(0, 60, 64)),
            synth(0, note_on(0, 64, 64)),
            synth(0, note_on(0, 60, 64)),
            synth(1008, note_off(0, 60, 0)),
            synth(1008, note_off(0, 64, 0)),
            synth(1008, note_off(0, 67, 0)),
        ]
    );
}

#[test]
fn a_step_sends_program_velocity_and_controls() {
    let step = Some(SequenceStep {
        pitch: Some(vec!["A#1".to_string()]),
        velocity: Some("C4".to_string()),
        program: Some(7),
        data: Some(vec![10, 20, 30]),
        duration: None,
    });
    let sequence = Sequence { name: "riff".to_string(), rate: Some(8), steps: vec![step] };
    let mut inst = instrument(3, vec![sequence]);
    inst.data = Some(vec![
        ModDevice { device: "filter".to_string(), channel: 5, control: 74 },
        ModDevice { device: "reverb".to_string(), channel: 16, control: 91 },
    ]);
    let mut p = SequencePlayer::new(inst, "riff".to_string());
    let mut sink = DeviceManager::new();
    let r = p.clock(&mut sink);
    assert!(r.note_was_played);
    let out: Vec<DeviceWrite> = sink.take();
    assert_eq!(out.len(), 3);
    assert_eq!(out[0].device, "filter");
    assert_eq!(out[0].messages, vec![control_change(4, 74, 10)]);
    assert_eq!(out[1].device, "reverb");
    assert_eq!(out[1].messages, vec![control_change(15, 91, 20)]);
    assert_eq!(out[2].device, "synth");
    assert_eq!(out[2].messages, vec![program_change(2, 7), note_on(2, 34, 60)]);
    assert_eq!(p.remaining(34), Some(1008));
}

#[test]
fn a_step_without_pitch_strikes_nothing() {
    let step = Some(SequenceStep {
        pitch: None,
        velocity: None,
        program: Some(3),
        data: Some(vec![1]),
        duration: None,
    });
    let mut p = player(None, vec![step]);
    let mut sink = DeviceManager::new();
    let r = p.clock(&mut sink);
    assert!(!r.note_was_played);
    let out = sink.take();
    assert_eq!(out.len(), 1);
    assert_eq!(out[0].messages, vec![program_change(0, 3)]);
    assert_eq!(p.step_index(), 1);
}

#[test]
fn an_unreadable_token_plays_note_zero() {
    let step = Some(SequenceStep {
        pitch: Some(vec!["x#zw".to_string(), "?".to_string()]),
        velocity: Some("loud".to_string()),
        program: None,
        data: None,
        duration: None,
    });
    let mut p = player(None, vec![step]);
    let mut sink = DeviceManager::new();
    p.clock(&mut sink);
    let out = sink.take();
    assert_eq!(out[0].messages, vec![note_on(0, 0, 0), note_on(0, 0, 0)]);
}

#[test]
fn a_rest_moves_the_cursor_and_sends_nothing() {
    let mut p = player(Some(4), vec![None, note("C4", None)]);
    let mut sink = DeviceManager::new();
    let r = p.clock(&mut sink);
    assert!(!r.note_was_played);
    assert_eq!(p.step_index(), 1);
    assert_eq!(sink.pending(), 0);
    let sent = run(&mut p, 2016);
    assert_eq!(sent, vec![synth(2015, note_on(0, 60, 100))]);
}

#[test]
fn an_unknown_sequence_is_a_silent_tick() {
    let sequence = Sequence { name: "riff".to_string(), rate: None, steps: vec![note("C4", None)] };
    let mut p = SequencePlayer::new(instrument(1, vec![sequence]), "missing".to_string());
    let mut sink = DeviceManager::new();
    for tick in 0..10 {
        let r = p.clock(&mut sink);
        assert!(!r.note_was_played);
        assert!(!r.sequence_ended);
        assert_eq!(p.clock_count(), tick + 1);
        assert_eq!(p.step_index(), 0);
    }
    assert_eq!(sink.pending(), 0);
}

#[test]
fn the_sequence_ends_with_its_last_step() {
    let mut p = player(Some(16), vec![None, None]);
    let mut sink = DeviceManager::new();
    for tick in 0..1200usize {
        let r = p.clock(&mut sink);
        assert_eq!(r.sequence_ended, tick + 1 >= 2 * 504, "tick {}", tick);
    }
    let mut empty = player(None, vec![]);
    assert!(empty.clock(&mut sink).sequence_ended);
}

#[test]
fn the_default_rate_is_a_quarter_note() {
    let mut p = player(None, vec![note("C4", None), note("D4", Some(2))]);
    let sent = run(&mut p, 8064);
    assert_eq!(
        sent,
        vec![
            synth(0, note_on(0, 60, 100)),
            synth(2016, note_off(0, 60, 0)),
            synth(2016, note_on(0, 62, 100)),
            synth(2016 + 4032, note_off(0, 62, 0)),
        ]
    );
}

#[test]
fn steps_past_the_end_play_nothing() {
    let mut p = player(Some(255), vec![note("C4", None)]);
    let sent = run(&mut p, 200);
    assert_eq!(sent, vec![synth(0, note_on(0, 60, 100)), synth(31, note_off(0, 60, 0))]);
    assert_eq!(p.step_index(), 1);
}

#[test]
fn next_bar_flushes_and_starts_over() {
    let chord = Some(SequenceStep {
        pitch: Some(vec!["E4".to_string(), "C4".to_string()]),
        velocity: None,
        program: None,
        data: None,
        duration: None,
    });
    let mut p = player(Some(4), vec![chord, None]);
    let mut sink = DeviceManager::new();
    for _ in 0..100 {
        p.clock(&mut sink);
    }
    sink.take();
    p.next_bar(&mut sink);
    assert_eq!(p.step_index(), 0);
    assert_eq!(p.clock_count(), 0);
    assert_eq!(p.bar_count(), 1);
    assert_eq!(p.remaining(60), None);
    assert_eq!(p.remaining(64), None);
    let out = sink.take();
    assert_eq!(out.len(), 1);
    assert_eq!(out[0].device, "synth");
    assert_eq!(out[0].messages, vec![note_off(0, 60, 0), note_off(0, 64, 0)]);

    // Nothing sounds: a second flush sends nothing, and no note-off follows later.
    p.next_bar(&mut sink);
    assert_eq!(p.bar_count(), 2);
    assert_eq!(sink.pending(), 0);
    let sent = run(&mut p, 1);
    assert_eq!(sent, vec![synth(0, note_on(0, 64, 100)), synth(0, note_on(0, 60, 100))]);
}

#[test]
fn note_off_all_leaves_the_cursor() {
    let mut p = player(Some(4), vec![note("C4", None), None]);
    let mut sink = DeviceManager::new();
    for _ in 0..10 {
        p.clock(&mut sink);
    }
    sink.take();
    p.note_off_all(&mut sink);
    assert_eq!(p.step_index(), 1);
    assert_eq!(p.clock_count(), 10);
    assert_eq!(p.bar_count(), 0);
    assert_eq!(p.remaining(60), None);
    assert_eq!(sink.take()[0].messages, vec![note_off(0, 60, 0)]);
    p.note_off_all(&mut sink);
    assert_eq!(sink.pending(), 0);
}

#[test]
fn reset_zeroes_the_counters_and_keeps_the_notes() {
    let mut p = player(Some(4), vec![note("C4", None), None]);
    let mut sink = DeviceManager::new();
    p.next_bar(&mut sink);
    for _ in 0..10 {
        p.clock(&mut sink);
    }
    assert_eq!(p.bar_count(), 1);
    p.reset();
    assert_eq!(p.step_index(), 0);
    assert_eq!(p.clock_count(), 0);
    assert_eq!(p.bar_count(), 0);
    assert_eq!(p.remaining(60), Some(2016 - 9));
    assert_eq!(p.seq_name(), "riff");
}

#[test]
fn bind_and_set_instrument_keep_the_playback_state() {
    let mut p = player(Some(4), vec![note("C4", None), None]);
    let mut sink = DeviceManager::new();
    for _ in 0..5 {
        p.clock(&mut sink);
    }
    p.bind("other".to_string());
    assert_eq!(p.seq_name(), "other");
    let mut inst = instrument(9, vec![]);
    inst.device = "elsewhere".to_string();
    p.set_instrument(inst);
    assert_eq!(p.instrument().channel, 9);
    assert_eq!(p.step_index(), 1);
    assert_eq!(p.clock_count(), 5);
    assert_eq!(p.remaining(60), Some(2012));
}
