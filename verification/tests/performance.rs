use cfgseq::midi::{note_off, note_on, OutMessage};
use cfgseq::models::{Controller, Instrument, Performance, Scene, Sequence, SequenceStep, Track};
use cfgseq::performance::PerformanceController;

fn note(pitch: &str, duration: Option<u8>) -> Option<SequenceStep> {
    Some(SequenceStep {
        pitch: Some(vec![pitch.to_string()]),
        velocity: None,
        program: None,
        data: None,
        duration,
    })
}

fn sequence(name: &str, steps: Vec<Option<SequenceStep>>) -> Sequence {
    Sequence { name: name.to_string(), rate: Some(4), steps }
}

fn instrument(name: &str, channel: u8, sequences: Vec<Sequence>) -> Instrument {
    Instrument { name: name.to_string(), device: format!("{}-out", name), channel, data: None, sequences }
}

fn track(instrument: &str, follow: Option<&str>, play: &[&str]) -> Track {
    Track {
        instrument: instrument.to_string(),
        follow: follow.map(|s| s.to_string()),
        play: play.iter().map(|s| s.to_string()).collect(),
    }
}

fn scene(name: &str, tracks: Vec<Track>) -> Scene {
    Scene { name: name.to_string(), master: None, tracks }
}

/// Two scenes in the playlist; the first track of each plays three bars. The
/// lead strikes on the first of four steps only; the bass follows the lead.
fn performance() -> Performance {
    Performance {
        controller: Controller::new(),
        playlist: vec!["one".to_string(), "two".to_string()],
        scenes: vec![
            scene(
                "one",
                vec![
                    track("lead", None, &["a", "b", "a"]),
                    track("bass", Some("lead"), &["x", "y"]),
                ],
            ),
            scene("two", vec![track("lead", None, &["b", "b", "b"])]),
        ],
        instruments: vec![
            instrument(
                "lead",
                1,
                vec![
                    sequence("a", vec![note("C4", Some(16)), None, None, None]),
                    sequence("b", vec![note("D4", Some(16)), None, None, None]),
                ],
            ),
            instrument(
                "bass",
                2,
                vec![
                    sequence("x", vec![note("C1", Some(8))]),
                    sequence("y", vec![note("E1", Some(8))]),
                ],
            ),
        ],
    }
}

fn name(s: &str) -> String {
    s.to_string()
}

/// Clocks the controller `ticks` times and gives each message with the call it was sent in.
fn run(ctrl: &mut PerformanceController, ticks: usize) -> Vec<(usize, String, OutMessage)> {
    let mut sent = Vec::new();
    for tick in 0..ticks {
        assert!(ctrl.has_headroom());
        ctrl.clock();
        for write in ctrl.take_output() {
            for message in write.messages {
                sent.push((tick, write.device.clone(), message));
            }
        }
    }
    sent
}

fn at(tick: usize, device: &str, message: OutMessage) -> (usize, String, OutMessage) {
    (tick, device.to_string(), message)
}

#[test]
fn a_new_controller_binds_the_first_scene() {
    let ctrl = PerformanceController::new(performance());
    assert_eq!(ctrl.scene_index(), 0);
    assert_eq!(ctrl.bar_count(), 0);
    assert_eq!(ctrl.clock_count(), 0);
    assert_eq!(ctrl.performance().playlist.len(), 2);
    let lead = ctrl.player(&name("lead")).unwrap();
    assert_eq!(lead.seq_name(), "a");
    assert_eq!(lead.instrument().channel, 1);
    assert_eq!(lead.bar_count(), 0);
    assert_eq!(lead.step_index(), 0);
    let bass = ctrl.player(&name("bass")).unwrap();
    assert_eq!(bass.seq_name(), "x");
    assert!(ctrl.player(&name("drums")).is_none());
    assert!(ctrl.has_headroom());
}

#[test]
fn three_bars_complete_the_scene() {
    let mut ctrl = PerformanceController::new(performance());
    ctrl.next_bar();
    assert_eq!((ctrl.scene_index(), ctrl.bar_count()), (0, 1));
    assert_eq!(ctrl.player(&name("lead")).unwrap().seq_name(), "b");
    ctrl.next_bar();
    assert_eq!((ctrl.scene_index(), ctrl.bar_count()), (0, 2));
    assert_eq!(ctrl.player(&name("lead")).unwrap().seq_name(), "a");
    ctrl.next_bar();
    assert_eq!((ctrl.scene_index(), ctrl.bar_count()), (1, 0));
    assert_eq!(ctrl.player(&name("lead")).unwrap().seq_name(), "b");
    // The playlist has two entries: three more bars and it is at its start again.
    ctrl.next_bar();
    ctrl.next_bar();
    assert_eq!((ctrl.scene_index(), ctrl.bar_count()), (1, 2));
    ctrl.next_bar();
    assert_eq!((ctrl.scene_index(), ctrl.bar_count()), (2, 0));
    assert_eq!(ctrl.player(&name("lead")).unwrap().seq_name(), "a");
    assert_eq!(ctrl.player(&name("bass")).unwrap().seq_name(), "x");
    for _ in 0..3 {
        ctrl.next_bar();
    }
    assert_eq!((ctrl.scene_index(), ctrl.bar_count()), (3, 0));
    assert!(ctrl.take_output().is_empty());
}

#[test]
fn next_bar_puts_masters_back_and_leaves_followers() {
    let mut ctrl = PerformanceController::new(performance());
    run(&mut ctrl, 3000);
    assert_eq!(ctrl.player(&name("lead")).unwrap().step_index(), 2);
    assert_eq!(ctrl.player(&name("lead")).unwrap().clock_count(), 3000);
    let bass_before = (
        ctrl.player(&name("bass")).unwrap().step_index(),
        ctrl.player(&name("bass")).unwrap().clock_count(),
        ctrl.player(&name("bass")).unwrap().bar_count(),
    );
    assert_eq!(bass_before, (1, 3000, 1));
    ctrl.next_bar();
    let lead = ctrl.player(&name("lead")).unwrap();
    assert_eq!((lead.step_index(), lead.clock_count(), lead.bar_count()), (0, 0, 0));
    assert_eq!(lead.seq_name(), "b");
    let bass = ctrl.player(&name("bass")).unwrap();
    assert_eq!((bass.step_index(), bass.clock_count(), bass.bar_count()), bass_before);
    assert_eq!(bass.seq_name(), "y");
    assert_eq!(ctrl.clock_count(), 3000);
}

#[test]
fn a_follower_advances_only_when_its_master_strikes() {
    let mut ctrl = PerformanceController::new(performance());
    // Tick 0: the lead strikes, the bass is pulled to its bar 1 and plays "y".
    ctrl.clock();
    let bass = ctrl.player(&name("bass")).unwrap();
    assert_eq!(bass.bar_count(), 1);
    assert_eq!(bass.seq_name(), "y");
    assert_eq!(bass.clock_count(), 1);
    let out = ctrl.take_output();
    assert_eq!(out.len(), 2);
    assert_eq!(out[0].device, "lead-out");
    assert_eq!(out[0].messages, vec![note_on(0, 60, 100)]);
    assert_eq!(out[1].device, "bass-out");
    assert_eq!(out[1].messages, vec![note_on(1, 28, 100)]);
    // The rest of the bar the lead rests on its steps 1 to 3: the bass stays.
    for tick in 1..8064 {
        ctrl.clock();
        assert_eq!(ctrl.player(&name("bass")).unwrap().bar_count(), 1, "tick {}", tick);
    }
    assert_eq!(ctrl.clock_count(), 8064);
    assert_eq!(ctrl.bar_count(), 0);
    // The bar boundary itself does not move the follower.
    ctrl.clock();
    assert_eq!(ctrl.clock_count(), 0);
    assert_eq!(ctrl.bar_count(), 1);
    assert_eq!(ctrl.player(&name("bass")).unwrap().bar_count(), 1);
    assert_eq!(ctrl.player(&name("bass")).unwrap().clock_count(), 8064);
    assert_eq!(ctrl.player(&name("lead")).unwrap().seq_name(), "b");
    ctrl.take_output();
    // First tick of the next bar: the lead strikes again, the bass moves on.
    ctrl.clock();
    let bass = ctrl.player(&name("bass")).unwrap();
    assert_eq!(bass.bar_count(), 2);
    assert_eq!(bass.seq_name(), "x");
    let out = ctrl.take_output();
    assert_eq!(out[0].messages, vec![note_on(0, 62, 100)]);
    assert_eq!(out[1].messages, vec![note_on(1, 24, 100)]);
}

#[test]
fn a_pulled_follower_is_silenced_before_it_plays() {
    let mut perf = performance();
    // The lead strikes on every step; the bass holds its note for a whole measure.
    perf.instruments[0].sequences[0].steps = vec![note("C4", Some(16)), note("C4", Some(16))];
    perf.instruments[1].sequences[0].steps = vec![note("C1", Some(1))];
    perf.instruments[1].sequences[1].steps = vec![note("E1", Some(1))];
    let mut ctrl = PerformanceController::new(perf);
    let sent = run(&mut ctrl, 2017);
    assert_eq!(
        sent,
        vec![
            at(0, "lead-out", note_on(0, 60, 100)),
            at(0, "bass-out", note_on(1, 28, 100)),
            at(504, "lead-out", note_off(0, 60, 0)),
            at(2016, "lead-out", note_on(0, 60, 100)),
            at(2016, "bass-out", note_off(1, 28, 0)),
            at(2016, "bass-out", note_on(1, 24, 100)),
        ]
    );
    assert_eq!(ctrl.player(&name("bass")).unwrap().bar_count(), 2);
}

#[test]
fn a_measure_of_ticks_rolls_the_bar_over() {
    let mut ctrl = PerformanceController::new(performance());
    let sent = run(&mut ctrl, 8064);
    assert_eq!(ctrl.clock_count(), 8064);
    assert_eq!(ctrl.bar_count(), 0);
    assert_eq!(
        sent,
        vec![
            at(0, "lead-out", note_on(0, 60, 100)),
            at(0, "bass-out", note_on(1, 28, 100)),
            at(504, "lead-out", note_off(0, 60, 0)),
            at(1008, "bass-out", note_off(1, 28, 0)),
        ]
    );
    // The tick that finds the measure counted starts the next bar and clocks nobody.
    let sent = run(&mut ctrl, 1);
    assert!(sent.is_empty());
    assert_eq!(ctrl.clock_count(), 0);
    assert_eq!(ctrl.bar_count(), 1);
    assert_eq!(ctrl.scene_index(), 0);
    assert_eq!(ctrl.player(&name("lead")).unwrap().clock_count(), 0);
    let sent = run(&mut ctrl, 1);
    assert_eq!(ctrl.clock_count(), 1);
    assert_eq!(
        sent,
        vec![at(0, "lead-out", note_on(0, 62, 100)), at(0, "bass-out", note_on(1, 24, 100))]
    );
}

#[test]
fn an_update_does_not_disturb_a_sounding_note() {
    let mut perf = performance();
    perf.scenes[0].tracks.truncate(1);
    perf.instruments[0].sequences[0].steps = vec![note("C4", Some(2)), note("G4", Some(16)), None, None];
    let mut ctrl = PerformanceController::new(perf.clone());
    let sent = run(&mut ctrl, 1000);
    assert_eq!(sent, vec![at(0, "lead-out", note_on(0, 60, 100))]);
    assert_eq!(ctrl.player(&name("lead")).unwrap().remaining(60), Some(4032 - 999));

    // The edit changes every step of the sequence that plays, the one already played too.
    let mut edited = perf.clone();
    edited.instruments[0].sequences[0].steps =
        vec![note("F4", Some(2)), note("A4", Some(16)), None, None];
    ctrl.update_def(edited);
    assert!(ctrl.take_output().is_empty());
    assert_eq!(ctrl.clock_count(), 1000);
    assert_eq!(ctrl.bar_count(), 0);
    assert_eq!(ctrl.scene_index(), 0);
    let lead = ctrl.player(&name("lead")).unwrap();
    assert_eq!(lead.step_index(), 1);
    assert_eq!(lead.clock_count(), 1000);
    assert_eq!(lead.remaining(60), Some(4032 - 999));
    assert_eq!(lead.seq_name(), "a");

    // The new second step is played at its boundary; the old note ends when it was due.
    let sent = run(&mut ctrl, 8064 - 1000);
    assert_eq!(
        sent,
        vec![
            at(2016 - 1000, "lead-out", note_on(0, 69, 100)),
            at(2016 + 504 - 1000, "lead-out", note_off(0, 69, 0)),
            at(4032 - 1000, "lead-out", note_off(0, 60, 0)),
        ]
    );
}

#[test]
fn an_update_rebinds_by_the_right_bar() {
    let mut ctrl = PerformanceController::new(performance());
    ctrl.clock();
    ctrl.next_bar();
    ctrl.take_output();
    assert_eq!(ctrl.bar_count(), 1);
    assert_eq!(ctrl.player(&name("bass")).unwrap().bar_count(), 1);
    let mut edited = performance();
    edited.scenes[0].tracks[0].play = vec![name("a"), name("a"), name("b")];
    edited.scenes[0].tracks[1].play = vec![name("y"), name("x"), name("x")];
    edited.scenes[0].tracks.push(track("pad", None, &["p", "q"]));
    edited.instruments[0].channel = 5;
    edited.instruments.push(instrument("pad", 3, vec![sequence("q", vec![None])]));
    ctrl.update_def(edited);
    let lead = ctrl.player(&name("lead")).unwrap();
    assert_eq!(lead.seq_name(), "a");
    assert_eq!(lead.instrument().channel, 5);
    // The follower is bound by its own bar, 1.
    assert_eq!(ctrl.player(&name("bass")).unwrap().seq_name(), "x");
    // The new track gets a fresh player, bound by the controller's bar, 1.
    let pad = ctrl.player(&name("pad")).unwrap();
    assert_eq!(pad.seq_name(), "q");
    assert_eq!((pad.step_index(), pad.clock_count(), pad.bar_count()), (0, 0, 0));
    assert_eq!(ctrl.performance().instruments.len(), 3);
}

#[test]
fn unresolved_names_are_passed_over() {
    let mut perf = performance();
    perf.playlist = vec![name("one"), name("nowhere")];
    perf.scenes[0].tracks = vec![
        track("lead", None, &["a"]),
        track("ghost", None, &["a"]),
        track("bass", Some("ghost"), &["nothing"]),
    ];
    let mut ctrl = PerformanceController::new(perf);
    assert!(ctrl.player(&name("ghost")).is_none());
    let sent = run(&mut ctrl, 100);
    assert_eq!(sent, vec![at(0, "lead-out", note_on(0, 60, 100))]);
    assert_eq!(ctrl.player(&name("bass")).unwrap().bar_count(), 0);
    assert_eq!(ctrl.player(&name("bass")).unwrap().clock_count(), 100);
    // One bar completes scene "one"; the next entry of the playlist names no scene.
    ctrl.next_bar();
    assert_eq!((ctrl.scene_index(), ctrl.bar_count()), (1, 0));
    let sent = run(&mut ctrl, 50);
    assert_eq!(sent, vec![]);
    assert_eq!(ctrl.clock_count(), 150);
    // Nobody was put back or clocked: the lead is where the last scene left it.
    assert_eq!(ctrl.player(&name("lead")).unwrap().clock_count(), 100);
    // With no scene, bars are counted and the playlist stays where it is.
    ctrl.next_bar();
    ctrl.next_bar();
    assert_eq!((ctrl.scene_index(), ctrl.bar_count()), (1, 2));
}

#[test]
fn reset_silences_and_starts_over() {
    let mut ctrl = PerformanceController::new(performance());
    for _ in 0..3 {
        ctrl.next_bar();
    }
    run(&mut ctrl, 10);
    assert_eq!(ctrl.scene_index(), 1);
    assert_eq!(ctrl.player(&name("lead")).unwrap().remaining(62), Some(504 - 9));
    ctrl.reset();
    assert_eq!((ctrl.scene_index(), ctrl.bar_count(), ctrl.clock_count()), (0, 0, 0));
    let out = ctrl.take_output();
    assert_eq!(out.len(), 1);
    assert_eq!(out[0].device, "lead-out");
    assert_eq!(out[0].messages, vec![note_off(0, 62, 0)]);
    let lead = ctrl.player(&name("lead")).unwrap();
    assert_eq!(lead.seq_name(), "a");
    assert_eq!((lead.step_index(), lead.clock_count(), lead.bar_count()), (0, 0, 0));
    assert_eq!(lead.remaining(62), None);
    // The next tick starts a new bar at counter 0.
    let sent = run(&mut ctrl, 1);
    assert_eq!(
        sent,
        vec![at(0, "lead-out", note_on(0, 60, 100)), at(0, "bass-out", note_on(1, 28, 100))]
    );
}

#[test]
fn init_scene_replaces_the_players_of_the_scene() {
    let mut ctrl = PerformanceController::new(performance());
    run(&mut ctrl, 5);
    ctrl.init_scene();
    let lead = ctrl.player(&name("lead")).unwrap();
    assert_eq!((lead.step_index(), lead.clock_count()), (0, 0));
    assert_eq!(lead.remaining(60), None);
    let bass = ctrl.player(&name("bass")).unwrap();
    assert_eq!((bass.step_index(), bass.clock_count(), bass.bar_count()), (0, 0, 0));
    assert_eq!(bass.seq_name(), "x");
    assert_eq!(ctrl.clock_count(), 5);
    assert!(ctrl.take_output().is_empty());
}

#[test]
fn poll_applies_update_then_reset_then_tick() {
    let mut ctrl = PerformanceController::new(performance());
    let idle = ctrl.poll(None, false, false, false);
    assert!(idle.controller.is_none());
    assert!(!idle.rejected);
    assert!(!idle.advanced);
    assert!(!idle.ticked);
    assert_eq!(ctrl.clock_count(), 0);

    let ticked = ctrl.poll(None, false, false, true);
    assert!(ticked.ticked);
    assert_eq!(ctrl.clock_count(), 1);
    assert_eq!(ctrl.take_output().len(), 2);

    let mut edited = performance();
    edited.controller.device = name("keys");
    edited.controller.ppq = Some(48);
    edited.instruments[0].sequences[0].steps[0] = note("G4", None);
    let all = ctrl.poll(Some(edited), true, false, true);
    let controller = all.controller.unwrap();
    assert_eq!(controller.device, "keys");
    assert_eq!(controller.ppq, Some(48));
    assert!(!all.rejected);
    assert!(all.ticked);
    assert_eq!(ctrl.clock_count(), 1);
    let out = ctrl.take_output();
    // The reset silences both players, then the tick plays the edited first step.
    assert_eq!(out.len(), 4);
    assert_eq!(out[0].messages, vec![note_off(0, 60, 0)]);
    assert_eq!(out[1].messages, vec![note_off(1, 28, 0)]);
    assert_eq!(out[2].messages, vec![note_on(0, 67, 100)]);
    assert_eq!(out[3].messages, vec![note_on(1, 28, 100)]);
}

#[test]
fn poll_turns_an_invalid_definition_away() {
    let mut ctrl = PerformanceController::new(performance());
    let mut broken = performance();
    broken.playlist.clear();
    let r = ctrl.poll(Some(broken), false, false, false);
    assert!(r.rejected);
    assert!(r.controller.is_none());
    assert!(!r.ticked);
    assert_eq!(ctrl.performance().playlist.len(), 2);
    let mut broken = performance();
    broken.instruments[0].channel = 0;
    assert!(ctrl.poll(Some(broken), false, false, true).rejected);
    assert_eq!(ctrl.performance().instruments[0].channel, 1);
    assert_eq!(ctrl.clock_count(), 1);
}

#[test]
fn a_bar_boundary_starts_the_next_bar_at_tick_zero() {
    let mut ctrl = PerformanceController::new(performance());
    run(&mut ctrl, 7968);
    assert_eq!(ctrl.clock_count(), 7968);
    ctrl.bar_boundary();
    assert_eq!((ctrl.scene_index(), ctrl.bar_count(), ctrl.clock_count()), (0, 1, 0));
    let lead = ctrl.player(&name("lead")).unwrap();
    assert_eq!((lead.step_index(), lead.clock_count()), (0, 0));
    assert_eq!(lead.seq_name(), "b");
    assert!(ctrl.has_bar_room());
    // The tick that follows is the first of the new bar.
    let sent = run(&mut ctrl, 1);
    assert_eq!(
        sent,
        vec![at(0, "lead-out", note_on(0, 62, 100)), at(0, "bass-out", note_on(1, 24, 100))]
    );
}

#[test]
fn poll_takes_the_bar_boundary_before_the_tick() {
    let mut ctrl = PerformanceController::new(performance());
    for _ in 0..10 {
        ctrl.poll(None, false, false, true);
    }
    ctrl.take_output();
    let r = ctrl.poll(None, false, true, true);
    assert!(r.advanced);
    assert!(r.ticked);
    assert_eq!((ctrl.bar_count(), ctrl.clock_count()), (1, 1));
    let out = ctrl.take_output();
    assert_eq!(out[0].messages, vec![note_on(0, 62, 100)]);
    // A reset in the same turn comes first: the boundary then leads into bar 1 of the start.
    let r = ctrl.poll(None, true, true, false);
    assert!(r.advanced);
    assert!(!r.ticked);
    assert_eq!((ctrl.scene_index(), ctrl.bar_count(), ctrl.clock_count()), (0, 1, 0));
}

#[test]
fn an_invalid_update_is_turned_away() {
    let mut ctrl = PerformanceController::new(performance());
    run(&mut ctrl, 100);
    let lead_left = ctrl.player(&name("lead")).unwrap().remaining(60);
    assert_eq!(lead_left, Some(504 - 99));

    let mut no_playlist = performance();
    no_playlist.playlist.clear();
    no_playlist.instruments[0].channel = 9;
    ctrl.update_def(no_playlist);

    let mut no_play = performance();
    no_play.scenes[0].tracks[0].play.clear();
    no_play.scenes[0].tracks[1].play = vec![name("q")];
    ctrl.update_def(no_play);

    let mut no_tracks = performance();
    no_tracks.scenes[1].tracks.clear();
    ctrl.update_def(no_tracks);

    let mut no_rate = performance();
    no_rate.instruments[1].sequences[0].rate = Some(0);
    ctrl.update_def(no_rate);

    // The definition that plays stays, and so does every player.
    assert!(ctrl.take_output().is_empty());
    assert_eq!(ctrl.performance().playlist.len(), 2);
    assert_eq!(ctrl.performance().scenes[0].tracks[0].play.len(), 3);
    assert_eq!((ctrl.scene_index(), ctrl.bar_count(), ctrl.clock_count()), (0, 0, 100));
    let lead = ctrl.player(&name("lead")).unwrap();
    assert_eq!(lead.instrument().channel, 1);
    assert_eq!(lead.seq_name(), "a");
    assert_eq!((lead.step_index(), lead.clock_count(), lead.bar_count()), (1, 100, 0));
    assert_eq!(lead.remaining(60), lead_left);
    let bass = ctrl.player(&name("bass")).unwrap();
    assert_eq!(bass.seq_name(), "y");
    assert_eq!((bass.step_index(), bass.clock_count(), bass.bar_count()), (1, 100, 1));
    // Playing goes on as if nothing had come.
    let sent = run(&mut ctrl, 405);
    assert_eq!(sent, vec![at(404, "lead-out", note_off(0, 60, 0))]);
}
