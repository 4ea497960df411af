use cfgseq::midi::{
    control_change, is_channel_message, note_off, note_on, parse_channel, parse_status,
    program_change, DeviceManager, OutMessage, WireMessage,
};

#[test]
fn channel_messages_are_told_by_their_status() {
    assert!(!is_channel_message(0));
    assert!(!is_channel_message(127));
    assert!(is_channel_message(128));
    assert!(is_channel_message(0x90));
    assert!(is_channel_message(239));
    assert!(!is_channel_message(240));
    assert!(!is_channel_message(248));
    assert!(!is_channel_message(255));
}

#[test]
fn status_bytes_split_into_kind_and_channel() {
    assert_eq!(parse_channel(0x93), 3);
    assert_eq!(parse_status(0x93), 0x90);
    assert_eq!(parse_channel(0xBF), 15);
    assert_eq!(parse_status(0xBF), 176);
    assert_eq!(parse_channel(0x80), 0);
    assert_eq!(parse_status(0x80), 128);
    assert_eq!(parse_channel(0x05), 5);
    assert_eq!(parse_status(0x05), 0);
    for status in 0..=255u8 {
        assert_eq!(parse_channel(status), status % 16);
        assert_eq!(parse_status(status), status - status % 16);
    }
}

#[test]
fn constructors_build_the_four_kinds() {
    assert_eq!(note_on(2, 60, 100), OutMessage::NoteOn { channel: 2, pitch: 60, velocity: 100 });
    assert_eq!(note_off(2, 60, 0), OutMessage::NoteOff { channel: 2, pitch: 60, velocity: 0 });
    assert_eq!(
        control_change(9, 74, 127),
        OutMessage::ControlChange { channel: 9, control: 74, value: 127 }
    );
    assert_eq!(program_change(0, 12), OutMessage::ProgramChange { channel: 0, program: 12 });
    assert_eq!(note_on(2, 60, 100).channel(), 2);
    assert_eq!(program_change(7, 12).channel(), 7);
}

#[test]
fn wire_bytes_carry_kind_channel_and_data() {
    assert_eq!(
        note_on(0, 60, 100).wire(),
        Some(WireMessage { status: 0x90, data1: 60, data2: 100, data3: 0 })
    );
    assert_eq!(
        note_off(3, 61, 0).wire(),
        Some(WireMessage { status: 0x83, data1: 61, data2: 0, data3: 0 })
    );
    assert_eq!(
        control_change(15, 7, 99).wire(),
        Some(WireMessage { status: 0xBF, data1: 7, data2: 99, data3: 0 })
    );
    assert_eq!(
        program_change(1, 42).wire(),
        Some(WireMessage { status: 0xC1, data1: 42, data2: 0, data3: 0 })
    );
}

#[test]
fn wire_refuses_a_channel_that_does_not_fit() {
    assert_eq!(note_on(16, 60, 100).wire(), None);
    assert_eq!(note_off(255, 60, 0).wire(), None);
    assert_eq!(control_change(200, 1, 2).wire(), None);
    assert_eq!(program_change(64, 1).wire(), None);
}

#[test]
fn wire_status_splits_back_into_kind_and_channel() {
    for channel in 0..16u8 {
        for message in [
            note_on(channel, 1, 2),
            note_off(channel, 1, 2),
            control_change(channel, 1, 2),
            program_change(channel, 1),
        ] {
            let wire = message.wire().unwrap();
            assert!(is_channel_message(wire.status));
            assert_eq!(parse_channel(wire.status), channel);
            let kind = match message {
                OutMessage::NoteOn { .. } => 0x90,
                OutMessage::NoteOff { .. } => 0x80,
                OutMessage::ControlChange { .. } => 0xB0,
                OutMessage::ProgramChange { .. } => 0xC0,
            };
            assert_eq!(parse_status(wire.status), kind);
        }
    }
}

#[test]
fn device_manager_keeps_submission_order() {
    let mut sink = DeviceManager::new();
    assert_eq!(sink.pending(), 0);
    sink.write_messages("synth".to_string(), vec![note_off(0, 60, 0), note_on(0, 62, 90)]);
    sink.write_messages("drums".to_string(), vec![note_on(9, 36, 127)]);
    sink.write_messages("synth".to_string(), vec![]);
    assert_eq!(sink.pending(), 3);
    let out = sink.take();
    assert_eq!(out.len(), 3);
    assert_eq!(out[0].device, "synth");
    assert_eq!(out[0].messages, vec![note_off(0, 60, 0), note_on(0, 62, 90)]);
    assert_eq!(out[1].device, "drums");
    assert_eq!(out[1].messages, vec![note_on(9, 36, 127)]);
    assert_eq!(out[2].device, "synth");
    assert!(out[2].messages.is_empty());
    assert_eq!(sink.pending(), 0);
    assert!(sink.take().is_empty());
}
