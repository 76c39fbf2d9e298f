//! The text that a front end shows for patterns and transport.

use vstd::prelude::*;
use crate::app::{App, AppView};
use crate::note::Slot;
use crate::sequence::{Destination, MidiOut, Pattern, Sequence};
use crate::store::{PatternStore, StoreView};
use crate::transport::{Transport, TransportView};
use crate::text::{decimal_string, decimal_text, hex_string, hex_string_padded, hex_text, hex_text_padded};

verus! {

/// The name of pitch class `class`, counted in semitones above C.
pub open spec fn pitch_class_text(class: int) -> Seq<char> {
    if class == 0 {
        "C-"@
    } else if class == 1 {
        "C#"@
    } else if class == 2 {
        "D-"@
    } else if class == 3 {
        "D#"@
    } else if class == 4 {
        "E-"@
    } else if class == 5 {
        "F-"@
    } else if class == 6 {
        "F#"@
    } else if class == 7 {
        "G-"@
    } else if class == 8 {
        "G#"@
    } else if class == 9 {
        "A-"@
    } else if class == 10 {
        "A#"@
    } else {
        "B-"@
    }
}

/// A note as tracker text: the pitch class, then the octave in hexadecimal.
pub open spec fn note_text(note: u8) -> Seq<char> {
    pitch_class_text(note as int % 12) + hex_text((note / 12) as nat)
}

/// What a step shows in place of a note: the note's text, or three dashes.
pub open spec fn slot_text(slot: Slot) -> Seq<char> {
    match slot {
        Some((pitch, _)) => note_text(pitch),
        None => "---"@,
    }
}

/// The line for step `index`: its number in two hexadecimal digits, a colon
/// and a space, then the slot.
pub open spec fn step_line_text(index: nat, slot: Slot) -> Seq<char> {
    hex_text_padded(index) + ": "@ + slot_text(slot)
}

/// The name of a pitch class.
fn pitch_class_str(class: u8) -> (text: &'static str)
    requires
        class < 12,
    ensures
        text@ == pitch_class_text(class as int),
{
    if class == 0 {
        "C-"
    } else if class == 1 {
        "C#"
    } else if class == 2 {
        "D-"
    } else if class == 3 {
        "D#"
    } else if class == 4 {
        "E-"
    } else if class == 5 {
        "F-"
    } else if class == 6 {
        "F#"
    } else if class == 7 {
        "G-"
    } else if class == 8 {
        "G#"
    } else if class == 9 {
        "A-"
    } else if class == 10 {
        "A#"
    } else {
        "B-"
    }
}

/// Writes a note as tracker text, `C-5` for middle C.
pub fn display_note(note: u8) -> (text: String)
    ensures
        text@ == note_text(note),
{
    let octave: u8 = note / 12;
    let class: u8 = note % 12;
    let mut text = String::from_str(pitch_class_str(class));
    let digits = hex_string(octave as usize);
    text.append(digits.as_str());
    text
}

/// Writes the line of one step of a pattern.
pub fn step_line(index: usize, slot: Slot) -> (text: String)
    ensures
        text@ == step_line_text(index as nat, slot),
{
    let mut text = hex_string_padded(index);
    text.append(": ");
    match slot {
        Some((pitch, _)) => {
            let note = display_note(pitch);
            text.append(note.as_str());
        },
        None => {
            text.append("---");
        },
    }
    text
}

/// Writes the lines of a pattern, one for each step in order.
pub fn sequence_lines(selected: &Sequence) -> (lines: Vec<String>)
    ensures
        lines@.len() == selected@.notes.len(),
        forall|i: int|
            0 <= i < lines@.len() ==> (#[trigger] lines@[i])@ == step_line_text(
                i as nat,
                selected@.notes[i],
            ),
{
    let mut lines: Vec<String> = Vec::new();
    let mut i: usize = 0;
    while i < selected.notes.len()
        invariant
            i <= selected.notes@.len(),
            lines@.len() == i,
            forall|k: int|
                0 <= k < i ==> (#[trigger] lines@[k])@ == step_line_text(
                    k as nat,
                    selected.notes@[k],
                ),
        decreases selected.notes@.len() - i,
    {
        lines.push(step_line(i, selected.notes[i]));
        i += 1;
    }
    lines
}

/// The entry of a sequence in the list of sequences: a marker, a star if
/// it plays, and its name; on a second line the device and the channel
/// that its events go to.
pub open spec fn summary_text(pattern: Pattern, playing: bool, fallback: Destination) -> Seq<char> {
    let out = match pattern.output {
        Some(dest) => dest,
        None => fallback,
    };
    let head = if playing {
        ">  "@ + "* "@
    } else {
        ">  "@
    };
    head + pattern.name + "\n   "@ + out.device + " => "@ + decimal_text(out.channel as nat)
}

/// The entries of the first `n` sequences, an empty line between each two.
pub open spec fn list_text(
    store: StoreView,
    transport: TransportView,
    fallback: Destination,
    n: int,
) -> Seq<char>
    decreases n,
{
    if n <= 0 {
        Seq::empty()
    } else if n == 1 {
        summary_text(store.patterns[0], transport.is_playing(store.ids[0]), fallback)
    } else {
        list_text(store, transport, fallback, n - 1) + "\n\n"@ + summary_text(
            store.patterns[n - 1],
            transport.is_playing(store.ids[n - 1]),
            fallback,
        )
    }
}

/// Whether the box of step `index` is lit: it is the step shown, and
/// something plays.
pub open spec fn step_lit(index: nat, shown: nat, playing: bool) -> bool {
    index == shown && playing
}

/// The least widths of the columns of the step view: one for the tempo,
/// then one for each of the sixteen steps.
pub open spec fn step_view_columns() -> Seq<u16> {
    seq![6u16].add(Seq::new(16, |i: int| 3u16))
}

/// The least widths of the columns of the main section: one for the list of
/// sequences, then one for each sequence on display.
pub open spec fn main_section_columns(shown: nat) -> Seq<u16> {
    seq![16u16].add(Seq::new(shown, |i: int| 12u16))
}

/// Writes the entry of a sequence in the list of sequences.
pub fn sequence_summary(seq: &Sequence, playing: bool, fallback: &MidiOut) -> (text: String)
    ensures
        text@ == summary_text(seq@, playing, fallback@),
{
    let out = match &seq.midi_out {
        Some(out) => out,
        None => fallback,
    };
    let mut text = String::from_str(">  ");
    if playing {
        text.append("* ");
    }
    text.append(seq.name.as_str());
    text.append("\n   ");
    text.append(out.dev.as_str());
    text.append(" => ");
    let channel = decimal_string(out.channel as usize);
    text.append(channel.as_str());
    text
}

/// Writes the list of sequences: the entry of each in order, an empty line
/// between each two.
pub fn sequences_text(store: &PatternStore, transport: &Transport, fallback: &MidiOut) -> (text:
    String)
    requires
        store.wf(),
        transport.wf(),
    ensures
        text@ == list_text(store@, transport@, fallback@, store@.ids.len() as int),
{
    let ids = store.ids();
    let sequences = store.sequences();
    let mut text = String::new();
    let mut i: usize = 0;
    while i < ids.len()
        invariant
            store.wf(),
            transport.wf(),
            ids@ == store@.ids,
            crate::store::patterns_of(sequences@) == store@.patterns,
            i <= ids@.len(),
            text@ == list_text(store@, transport@, fallback@, i as int),
        decreases ids@.len() - i,
    {
        assert(sequences@.len() == store@.patterns.len());
        assert(sequences@[i as int]@ == store@.patterns[i as int]);
        let entry = sequence_summary(&sequences[i], transport.is_playing(ids[i]), fallback);
        if i > 0 {
            text.append("\n\n");
        } else {
            assert(text@ + entry@ =~= entry@);
        }
        text.append(entry.as_str());
        i += 1;
    }
    text
}

/// Writes the tempo for the step view.
pub fn bpm_text(bpm: usize) -> (text: String)
    ensures
        text@ == decimal_text(bpm as nat),
{
    decimal_string(bpm)
}

/// Writes the label of the box of step `index`.
pub fn step_label(index: u8) -> (text: String)
    ensures
        text@ == hex_text(index as nat),
{
    hex_string(index as usize)
}

/// Whether the box of step `index` is lit.
pub fn is_step_lit(index: u8, shown: usize, playing: bool) -> (lit: bool)
    ensures
        lit == step_lit(index as nat, shown as nat, playing),
{
    index as usize == shown && playing
}

/// A column of width `first`, then `count` columns of width `each`.
fn columns(first: u16, each: u16, count: usize) -> (widths: Vec<u16>)
    ensures
        widths@ == seq![first].add(Seq::new(count as nat, |i: int| each)),
{
    let mut widths: Vec<u16> = Vec::new();
    widths.push(first);
    let mut i: usize = 0;
    while i < count
        invariant
            i <= count,
            widths@ == seq![first].add(Seq::new(i as nat, |k: int| each)),
        decreases count - i,
    {
        widths.push(each);
        i += 1;
        assert(widths@ =~= seq![first].add(Seq::new(i as nat, |k: int| each)));
    }
    widths
}

/// The least widths of the columns of the step view.
pub fn step_view_widths() -> (widths: Vec<u16>)
    ensures
        widths@ == step_view_columns(),
{
    columns(6, 3, 16)
}

/// The least widths of the columns of the main section when `shown`
/// sequences are on display.
pub fn main_section_widths(shown: usize) -> (widths: Vec<u16>)
    ensures
        widths@ == main_section_columns(shown as nat),
{
    columns(16, 12, shown)
}

/// How much room a row or a column asks for.
#[derive(Debug, Clone, Copy, PartialEq, Eq, Structural)]
pub enum Span {
    /// Exactly so many cells.
    Length(u16),
    /// So many cells at least.
    Min(u16),
}

/// One step of the step view: its label, and whether it is lit.
#[derive(Debug, PartialEq, Eq)]
pub struct StepBox {
    pub label: String,
    pub lit: bool,
}

/// The step view: the tempo, the sixteen steps, and the least widths of
/// its columns.
#[derive(Debug, PartialEq, Eq)]
pub struct StepView {
    pub bpm: String,
    pub boxes: Vec<StepBox>,
    pub widths: Vec<u16>,
}

/// A sequence on display: its name as the title, and a line for each step.
#[derive(Debug, PartialEq, Eq)]
pub struct SequencePane {
    pub title: String,
    pub lines: Vec<String>,
}

/// The list of sequences: its text, how many rows it is scrolled by, and
/// how many entries the scroll bar stands for.
#[derive(Debug, PartialEq, Eq)]
pub struct SequenceList {
    pub text: String,
    pub scroll: u16,
    pub content_length: usize,
}

/// The main section: the list of sequences, a pane for each sequence on
/// display, and the least widths of its columns.
#[derive(Debug, PartialEq, Eq)]
pub struct MainSection {
    pub list: SequenceList,
    pub panes: Vec<SequencePane>,
    pub widths: Vec<u16>,
}

/// The whole screen: the heights of its two rows, the step view in the
/// first and the main section in the second.
#[derive(Debug, PartialEq, Eq)]
pub struct Screen {
    pub rows: Vec<Span>,
    pub step_view: StepView,
    pub main: MainSection,
}

/// The ids among the first `n` on display that the store contains, in the
/// order of display.
pub open spec fn on_display(displaying: Seq<u64>, store: StoreView, n: int) -> Seq<u64>
    decreases n,
{
    if n <= 0 {
        Seq::empty()
    } else if store.contains(displaying[n - 1]) {
        on_display(displaying, store, n - 1).push(displaying[n - 1])
    } else {
        on_display(displaying, store, n - 1)
    }
}

impl SequencePane {
    /// Whether the pane shows `pattern`.
    pub open spec fn shows(&self, pattern: Pattern) -> bool {
        &&& self.title@ == pattern.name
        &&& self.lines@.len() == pattern.notes.len()
        &&& forall|i: int|
            0 <= i < self.lines@.len() ==> (#[trigger] self.lines@[i])@ == step_line_text(
                i as nat,
                pattern.notes[i],
            )
    }
}

impl StepView {
    /// Whether the view shows tempo `bpm`, with step `shown` lit if
    /// something plays.
    pub open spec fn shows(&self, bpm: nat, shown: nat, playing: bool) -> bool {
        &&& self.bpm@ == decimal_text(bpm)
        &&& self.boxes@.len() == 16
        &&& forall|i: int|
            0 <= i < 16 ==> (#[trigger] self.boxes@[i]).label@ == hex_text(i as nat)
                && self.boxes@[i].lit == step_lit(i as nat, shown, playing)
        &&& self.widths@ == step_view_columns()
    }
}

impl SequenceList {
    /// Whether the list shows the sequences of `app`.
    pub open spec fn shows(&self, app: AppView) -> bool {
        &&& self.text@ == list_text(
            app.sequencer.store,
            app.sequencer.transport,
            app.sequencer.router.fallback,
            app.sequencer.store.ids.len() as int,
        )
        &&& self.scroll == app.vertical_scroll % 0x10000
        &&& self.content_length == app.sequencer.store.ids.len()
    }
}

impl MainSection {
    /// Whether the section shows the list of sequences of `app` and a pane
    /// for each sequence on display that exists.
    pub open spec fn shows(&self, app: AppView) -> bool {
        let ids = on_display(app.displaying, app.sequencer.store, app.displaying.len() as int);
        &&& self.list.shows(app)
        &&& self.panes@.len() == ids.len()
        &&& forall|i: int|
            0 <= i < ids.len() ==> (#[trigger] self.panes@[i]).shows(
                app.sequencer.store.pattern(ids[i]),
            )
        &&& self.widths@ == main_section_columns(ids.len())
    }
}

impl App {
    /// Lays out the whole screen: a row of three cells for the step view,
    /// and a row of eighteen cells at least for the main section.
    pub fn render(&self) -> (screen: Screen)
        requires
            self.wf(),
        ensures
            screen.rows@ == seq![Span::Length(3), Span::Min(18)],
            screen.step_view.shows(
                self@.sequencer.clock.bpm,
                self@.sequencer.transport.shown_step,
                self@.sequencer.transport.voices.len() > 0,
            ),
            screen.main.shows(self@),
    {
        let mut rows: Vec<Span> = Vec::new();
        rows.push(Span::Length(3));
        rows.push(Span::Min(18));
        assert(rows@ =~= seq![Span::Length(3), Span::Min(18)]);
        Screen { rows, step_view: self.build_step_view(), main: self.main_section() }
    }

    /// The main section: the list of sequences, then a pane for each
    /// sequence on display. An id on display that no sequence has any more
    /// gets no pane.
    pub fn main_section(&self) -> (section: MainSection)
        requires
            self.wf(),
        ensures
            section.shows(self@),
    {
        let store = self.sequencer.store();
        let mut panes: Vec<SequencePane> = Vec::new();
        let ghost mut ids: Seq<u64> = Seq::empty();
        let mut i: usize = 0;
        while i < self.displaying_sequences.len()
            invariant
                store.wf(),
                store@ == self@.sequencer.store,
                i <= self.displaying_sequences@.len(),
                ids == on_display(self@.displaying, store@, i as int),
                panes@.len() == ids.len(),
                forall|k: int|
                    0 <= k < ids.len() ==> (#[trigger] panes@[k]).shows(store@.pattern(ids[k])),
            decreases self.displaying_sequences@.len() - i,
        {
            let id = self.displaying_sequences[i];
            match store.get(id) {
                Some(selected) => {
                    let pane = self.sequence_display(selected);
                    panes.push(pane);
                    proof {
                        ids = ids.push(id);
                    }
                },
                None => {},
            }
            i += 1;
        }
        let widths = main_section_widths(panes.len());
        MainSection { list: self.sequences_display(), panes, widths }
    }

    /// The pane of one sequence: its name, and for each step its number and
    /// its note.
    pub fn sequence_display(&self, selected: &Sequence) -> (pane: SequencePane)
        ensures
            pane.shows(selected@),
    {
        SequencePane { title: selected.name.clone(), lines: sequence_lines(selected) }
    }

    /// The list of sequences with the output of each, a star before those
    /// that play.
    pub fn sequences_display(&self) -> (list: SequenceList)
        requires
            self.wf(),
        ensures
            list.shows(self@),
    {
        let store = self.sequencer.store();
        let text = sequences_text(
            store,
            self.sequencer.transport(),
            self.sequencer.router().default_output(),
        );
        SequenceList {
            text,
            scroll: (self.vertical_scroll % 0x10000) as u16,
            content_length: store.len(),
        }
    }

    /// The step view: the tempo, and the sixteen steps with the one shown
    /// lit while something plays.
    pub fn build_step_view(&self) -> (view: StepView)
        requires
            self.wf(),
        ensures
            view.shows(
                self@.sequencer.clock.bpm,
                self@.sequencer.transport.shown_step,
                self@.sequencer.transport.voices.len() > 0,
            ),
    {
        let shown = self.sequencer.current_step();
        let playing = self.sequencer.is_playing();
        let mut boxes: Vec<StepBox> = Vec::new();
        let mut i: u8 = 0;
        while i < 16
            invariant
                i <= 16,
                boxes@.len() == i,
                forall|k: int|
                    0 <= k < i ==> (#[trigger] boxes@[k]).label@ == hex_text(k as nat)
                        && boxes@[k].lit == step_lit(k as nat, shown as nat, playing),
            decreases 16 - i,
        {
            boxes.push(StepBox { label: step_label(i), lit: is_step_lit(i, shown, playing) });
            i += 1;
        }
        StepView { bpm: bpm_text(self.sequencer.bpm()), boxes, widths: step_view_widths() }
    }
}

} // verus!
