use cfgseq::midi::{parse_midi_note, parse_midi_note_symbol, parse_numeral};

#[test]
fn test_parse_midi_note_symbol() {
    assert_eq!(parse_midi_note_symbol(&"A#2".to_string()), 46);
    assert_eq!(parse_midi_note_symbol(&"D5".to_string()), 74);
    assert_eq!(parse_midi_note_symbol(&"C5".to_string()), 72);
    assert_eq!(parse_midi_note_symbol(&"E5".to_string()), 76);
    assert_eq!(parse_midi_note_symbol(&"G#4".to_string()), 68);
    assert_eq!(parse_midi_note_symbol(&"x".to_string()), 0);
    assert_eq!(parse_midi_note_symbol(&"x#zw".to_string()), 0);
}

#[test]
fn test_parse_midi_note() {
    assert_eq!(parse_midi_note(&"A#2".to_string()), 46);
    assert_eq!(parse_midi_note(&"D5".to_string()), 74);
    assert_eq!(parse_midi_note(&"C5".to_string()), 72);
    assert_eq!(parse_midi_note(&"E5".to_string()), 76);
    assert_eq!(parse_midi_note(&"G#4".to_string()), 68);
    assert_eq!(parse_midi_note(&"x".to_string()), 0);
    assert_eq!(parse_midi_note(&"x#zw".to_string()), 0);

    assert_eq!(parse_midi_note(&"34".to_string()), 34);
    assert_eq!(parse_midi_note(&"62".to_string()), 62);
    assert_eq!(parse_midi_note(&"60".to_string()), 60);
    assert_eq!(parse_midi_note(&"64".to_string()), 64);
    assert_eq!(parse_midi_note(&"56".to_string()), 56);
    assert_eq!(parse_midi_note(&"0".to_string()), 0);
    assert_eq!(parse_midi_note(&"111".to_string()), 111);
}

#[test]
fn numeral_agrees_with_the_standard_parser() {
    let mut cases: Vec<String> = Vec::new();
    for n in 0..1200u32 {
        cases.push(n.to_string());
        cases.push(format!("+{}", n));
        cases.push(format!("0{}", n));
        cases.push(format!("-{}", n));
        cases.push(format!(" {}", n));
        cases.push(format!("{} ", n));
        cases.push(format!("{}x", n));
        cases.push(format!("0000000000000000000000{}", n));
    }
    for s in ["", "+", "-", "++1", "+-1", "1_0", "0x10", "٣", "1٣", "C5", "4294967296", "18446744073709551616"] {
        cases.push(s.to_string());
    }
    for s in cases {
        let expected: Option<u8> = s.parse::<u8>().ok();
        assert_eq!(parse_numeral(&s), expected, "token {:?}", s);
    }
}

#[test]
fn note_names_cover_every_letter_and_octave() {
    let letters = [
        ("C", 0u8),
        ("C#", 1),
        ("D", 2),
        ("D#", 3),
        ("E", 4),
        ("F", 5),
        ("F#", 6),
        ("G", 7),
        ("G#", 8),
        ("A", 9),
        ("A#", 10),
        ("B", 11),
    ];
    for (name, index) in letters {
        for octave in 0..10u8 {
            let token = format!("{}{}", name, octave);
            let expected = index + 12 * (octave + 1);
            assert_eq!(parse_midi_note_symbol(&token), expected, "token {}", token);
            assert_eq!(parse_midi_note(&token), expected, "token {}", token);
        }
    }
    assert_eq!(parse_midi_note_symbol(&"C4".to_string()), 60);
    assert_eq!(parse_midi_note_symbol(&"E4".to_string()), 64);
    assert_eq!(parse_midi_note_symbol(&"C0".to_string()), 12);
    assert_eq!(parse_midi_note_symbol(&"B9".to_string()), 131);
}

#[test]
fn a_token_that_is_no_note_name_reads_as_zero() {
    for token in [
        "", "C", "#", "C#", "B#", "E#3", "B#3", "H4", "c4", "x5", "Cx", "C#x", "4C", "#4",
        "C45", "C#45", "C4 ", " C4", "C-1", "Db4", "Cb4", "C##4", "é5", "C٣", "x", "x#zw", "note",
    ] {
        assert_eq!(parse_midi_note_symbol(&token.to_string()), 0, "token {:?}", token);
        assert_eq!(parse_midi_note(&token.to_string()), 0, "token {:?}", token);
    }
    // A numeral is no note name either, but has its own value as a token.
    assert_eq!(parse_midi_note_symbol(&"60".to_string()), 0);
    assert_eq!(parse_midi_note(&"60".to_string()), 60);
    assert_eq!(parse_midi_note(&"255".to_string()), 255);
    assert_eq!(parse_midi_note(&"+7".to_string()), 7);
    assert_eq!(parse_midi_note(&"256".to_string()), 0);
    assert_eq!(parse_midi_note(&"-1".to_string()), 0);
}
