use step_sequencer::app::App;
use step_sequencer::sequence::{MidiOut, Sequence};
use step_sequencer::text::{decimal_string, digit_str, hex_string, hex_string_padded};
use step_sequencer::ui::{
    bpm_text, is_step_lit, main_section_widths, sequence_lines, sequence_summary, sequences_text,
    step_label, step_line, step_view_widths, Span,
};

#[test]
fn numbers_as_text() {
    assert_eq!(decimal_string(0), "0");
    assert_eq!(decimal_string(9), "9");
    assert_eq!(decimal_string(10), "10");
    assert_eq!(decimal_string(120), "120");
    assert_eq!(decimal_string(999), "999");
    assert_eq!(decimal_string(65535), "65535");
    assert_eq!(hex_string(0), "0");
    assert_eq!(hex_string(10), "A");
    assert_eq!(hex_string(15), "F");
    assert_eq!(hex_string(16), "10");
    assert_eq!(hex_string(255), "FF");
    assert_eq!(hex_string(0xBEEF), "BEEF");
    assert_eq!(hex_string_padded(0), "00");
    assert_eq!(hex_string_padded(15), "0F");
    assert_eq!(hex_string_padded(16), "10");
    assert_eq!(hex_string_padded(0x123), "123");
    assert_eq!(digit_str(7), "7");
    assert_eq!(digit_str(11), "B");
}

#[test]
fn numbers_as_text_agree_with_std() {
    for n in 0..5000usize {
        assert_eq!(decimal_string(n), format!("{}", n));
        assert_eq!(hex_string(n), format!("{:X}", n));
        assert_eq!(hex_string_padded(n), format!("{:02X}", n));
    }
}

#[test]
fn step_line_text() {
    assert_eq!(step_line(0, None), "00: ---");
    assert_eq!(step_line(10, Some((60, 100))), "0A: C-5");
    assert_eq!(step_line(15, Some((61, 0))), "0F: C#5");
    assert_eq!(step_line(16, Some((127, 1))), "10: G-A");
}

#[test]
fn sequence_lines_text() {
    let mut seq = Sequence::new("a".to_string());
    seq.notes[1] = Some((57, 100));
    seq.notes[15] = Some((0, 100));
    let lines = sequence_lines(&seq);
    assert_eq!(lines.len(), 16);
    assert_eq!(lines[0], "00: ---");
    assert_eq!(lines[1], "01: A-4");
    assert_eq!(lines[9], "09: ---");
    assert_eq!(lines[10], "0A: ---");
    assert_eq!(lines[15], "0F: C-0");
    assert!(sequence_lines(&Sequence::with_len("none".to_string(), 0)).is_empty());
}

#[test]
fn sequence_summary_text() {
    let fallback = MidiOut { dev: "Default".to_string(), channel: 0 };
    let mut seq = Sequence::new("Sequence-0".to_string());
    assert_eq!(sequence_summary(&seq, false, &fallback), ">  Sequence-0\n   Default => 0");
    assert_eq!(sequence_summary(&seq, true, &fallback), ">  * Sequence-0\n   Default => 0");
    seq.midi_out = Some(MidiOut { dev: "synth".to_string(), channel: 12 });
    assert_eq!(sequence_summary(&seq, true, &fallback), ">  * Sequence-0\n   synth => 12");
}

#[test]
fn sequences_list_text() {
    let mut app = App::new();
    let fallback = MidiOut { dev: "Default".to_string(), channel: 0 };
    assert_eq!(
        sequences_text(app.sequencer.store(), app.sequencer.transport(), &fallback),
        ">  Sequence-0\n   Default => 0"
    );
    let b = app.sequencer.create_sequence("bass".to_string());
    app.sequencer.set_output(b, Some(MidiOut { dev: "synth".to_string(), channel: 3 })).unwrap();
    app.sequencer.play(b, 0).unwrap();
    assert_eq!(
        app.sequences_display().text,
        ">  Sequence-0\n   Default => 0\n\n>  * bass\n   synth => 3"
    );
    app.sequencer.delete_sequence(0).unwrap();
    app.sequencer.delete_sequence(b).unwrap();
    assert_eq!(app.sequences_display().text, "");
    assert_eq!(app.sequences_display().content_length, 0);
}

#[test]
fn step_view_model() {
    assert_eq!(bpm_text(120), "120");
    assert_eq!(step_label(0), "0");
    assert_eq!(step_label(9), "9");
    assert_eq!(step_label(10), "A");
    assert_eq!(step_label(15), "F");
    assert!(is_step_lit(3, 3, true));
    assert!(!is_step_lit(3, 3, false));
    assert!(!is_step_lit(4, 3, true));
    assert_eq!(step_view_widths(), vec![6, 3, 3, 3, 3, 3, 3, 3, 3, 3, 3, 3, 3, 3, 3, 3, 3]);
    assert_eq!(main_section_widths(0), vec![16]);
    assert_eq!(main_section_widths(2), vec![16, 12, 12]);
}

#[test]
fn build_step_view_lights_the_shown_step_while_playing() {
    let mut app = App::new();
    let view = app.build_step_view();
    assert_eq!(view.bpm, "120");
    assert_eq!(view.boxes.len(), 16);
    assert!(view.boxes.iter().all(|b| !b.lit));
    let labels: Vec<&str> = view.boxes.iter().map(|b| b.label.as_str()).collect();
    assert_eq!(
        labels,
        vec!["0", "1", "2", "3", "4", "5", "6", "7", "8", "9", "A", "B", "C", "D", "E", "F"]
    );
    assert_eq!(view.widths.len(), 17);
    app.sequencer.set_bpm(90);
    app.sequencer.play(0, 0).unwrap();
    // At 90 beats per minute a step takes 166 ms.
    assert_eq!(app.tick(165), None);
    for n in 1..=4u64 {
        app.tick(n * 166).unwrap();
    }
    let view = app.build_step_view();
    assert_eq!(view.bpm, "90");
    let lit: Vec<usize> = (0..16).filter(|i| view.boxes[*i].lit).collect();
    assert_eq!(lit, vec![3]);
    app.sequencer.stop(0).unwrap();
    assert!(app.build_step_view().boxes.iter().all(|b| !b.lit));
}

#[test]
fn render_lays_out_the_screen() {
    let mut app = App::new();
    app.sequencer.set_step(0, 2, Some((48, 100))).unwrap();
    let b = app.sequencer.create_sequence("bass".to_string());
    app.displaying_sequences = vec![b, 7, 0];
    app.vertical_scroll = 65537;
    let screen = app.render();
    assert_eq!(screen.rows, vec![Span::Length(3), Span::Min(18)]);
    assert_eq!(screen.main.widths, vec![16, 12, 12]);
    assert_eq!(screen.main.panes.len(), 2);
    assert_eq!(screen.main.panes[0].title, "bass");
    assert_eq!(screen.main.panes[0].lines[2], "02: ---");
    assert_eq!(screen.main.panes[1].title, "Sequence-0");
    assert_eq!(screen.main.panes[1].lines[2], "02: C-4");
    assert_eq!(screen.main.list.scroll, 1);
    assert_eq!(screen.main.list.content_length, 2);
    assert_eq!(
        screen.main.list.text,
        ">  Sequence-0\n   Default => 0\n\n>  bass\n   Default => 0"
    );
    assert_eq!(screen.step_view, app.build_step_view());
}
