use constraint_mux::multiplexer::{
    chars_of, detected_inputs, frequency_fields, history_lines, is_white_space, midi_note, push_history,
    reader_step, MidiNote, ReadOutcome, ReaderAction, HISTORY_CAP,
};

#[test]
fn white_space_matches_std_for_every_char() {
    for c in (0u32..=0x10FFFF).filter_map(char::from_u32) {
        assert_eq!(is_white_space(c), c.is_whitespace(), "{:?}", c);
    }
}

#[test]
fn chars_of_keeps_order() {
    assert_eq!(chars_of("a♪b"), vec!['a', '♪', 'b']);
    assert!(chars_of("").is_empty());
}

#[test]
fn frequency_field_of_f_line() {
    assert_eq!(frequency_fields("F:440.0\n"), vec!["440.0".to_string()]);
    assert_eq!(frequency_fields("  F:200.0 \r\n"), vec!["200.0".to_string()]);
}

#[test]
fn frequency_field_of_note_line() {
    assert_eq!(frequency_fields("NOTE:C4:261.63\n"), vec!["261.63".to_string()]);
    assert_eq!(frequency_fields("NOTE:C4:261.63:extra"), vec!["261.63".to_string()]);
    assert_eq!(frequency_fields("NOTE:C4:"), vec!["".to_string()]);
    assert!(frequency_fields("NOTE:C4").is_empty());
}

#[test]
fn frequency_fields_of_many_lines() {
    let text = "hello\nF:1\n\n\u{3000}NOTE:A:2\u{a0}\nf:3\nF:4";
    assert_eq!(
        frequency_fields(text),
        vec!["1".to_string(), "2".to_string(), "4".to_string()]
    );
    assert!(frequency_fields("").is_empty());
    assert!(frequency_fields("just text\n").is_empty());
}

#[test]
fn history_lines_skip_empty_lines() {
    assert_eq!(history_lines("\n\nhello\n\n"), vec!["hello".to_string()]);
    assert_eq!(
        history_lines("line1\nline2\n"),
        vec!["line1".to_string(), "line2".to_string()]
    );
    assert_eq!(history_lines("a\r\nb\rc"), vec!["a".to_string(), "b\rc".to_string()]);
    assert_eq!(history_lines("\r\n  \n"), vec!["  ".to_string()]);
    assert!(history_lines("").is_empty());
}

#[test]
fn history_is_capped_at_newest_entries() {
    let mut history: Vec<String> = Vec::new();
    for i in 0..5100 {
        push_history(&mut history, format!("line{}", i));
    }
    assert_eq!(history.len(), HISTORY_CAP);
    assert_eq!(history[0], "line100");
    assert_eq!(history[HISTORY_CAP - 1], "line5099");
}

#[test]
fn history_drops_all_excess_entries() {
    let mut history: Vec<String> = (0..5010).map(|i| i.to_string()).collect();
    push_history(&mut history, "new".to_string());
    assert_eq!(history.len(), HISTORY_CAP);
    assert_eq!(history[0], "11");
    assert_eq!(history.last().unwrap(), "new");
}

#[test]
fn midi_channel_extraction() {
    assert_eq!(midi_note(&[0x93, 60, 80]), Some(MidiNote { channel: 3, note: 60 }));
    assert_eq!(midi_note(&[0x90, 69, 100]), Some(MidiNote { channel: 0, note: 69 }));
    assert_eq!(midi_note(&[0xEF, 1, 2, 3]), Some(MidiNote { channel: 15, note: 1 }));
    assert_eq!(midi_note(&[0xF0, 60, 80]), None);
    assert_eq!(midi_note(&[0x7F, 60, 80]), None);
    assert_eq!(midi_note(&[0x90, 60]), None);
}

#[test]
fn history_lines_are_nonempty_and_single_line() {
    for l in history_lines("a\n\nb\r\n\r\nc\rd\n\n\n") {
        assert!(!l.is_empty());
        assert!(!l.contains('\n'));
    }
}

#[test]
fn serial_reader_steps() {
    assert_eq!(reader_step(ReadOutcome::Bytes(0)), ReaderAction::Stop);
    assert_eq!(reader_step(ReadOutcome::Bytes(12)), ReaderAction::Process(12));
    assert_eq!(reader_step(ReadOutcome::Failed), ReaderAction::RetryAfterMillis(100));
}

#[test]
fn decoded_frame_stops_text_and_midi_detection() {
    let data = [0u8, 0, 0, 1, 0x90, 69, 100];
    let r = detected_inputs(&data, "F:1\n", true);
    assert!(r.fields.is_empty());
    assert_eq!(r.midi, None);
}

#[test]
fn undecoded_data_yields_text_then_midi() {
    let r = detected_inputs(&[0x93, 60, 80], "F:440.0\nNOTE:C4:261.63\n", false);
    assert_eq!(r.fields, vec!["440.0".to_string(), "261.63".to_string()]);
    assert_eq!(r.midi, Some(MidiNote { channel: 3, note: 60 }));
    let r = detected_inputs(b"hello\n", "hello\n", false);
    assert!(r.fields.is_empty());
    assert_eq!(r.midi, None);
}
