//! The application state around the sequencer, and what it does with the
//! events of its front end.

use vstd::prelude::*;
use crate::event::{dispatch_views, Dispatch, TickReport};
use crate::sequencer::{Sequencer, SequencerView};

verus! {

/// What the application tells itself to do.
#[derive(Debug, Clone, Copy, PartialEq, Eq, Structural)]
pub enum AppEvent {
    /// Leave the main loop.
    Quit,
}

/// The keys that the application tells apart.
#[derive(Debug, Clone, Copy, PartialEq, Eq, Structural)]
pub enum Key {
    Esc,
    Char(char),
    Other,
}

/// The modifiers of a key press when the control key alone is held.
pub const CONTROL: u8 = 2;

/// A key press: the key, and the modifier keys held with it as a set of
/// bits (shift 1, control 2, alt 4, super 8, hyper 16, meta 32).
#[derive(Debug, Clone, Copy, PartialEq, Eq, Structural)]
pub struct KeyPress {
    pub key: Key,
    pub modifiers: u8,
}

/// What the front end hands to the application.
#[derive(Debug, Clone, Copy, PartialEq, Eq, Structural)]
pub enum Event {
    /// Time has passed.
    Tick,
    /// A key was pressed.
    Key(KeyPress),
    /// The terminal reported something that is no key press.
    Other,
    /// The application told itself something.
    App(AppEvent),
}

/// What the front end is to do after an event: deliver the events of a
/// tick, and queue what the application tells itself.
#[derive(Debug, PartialEq, Eq)]
pub struct Reaction {
    pub report: Option<TickReport>,
    pub raised: Option<AppEvent>,
}

/// What a key press tells the application to do: escape, `q`, and `c` with
/// control as the only modifier, ask it to quit.
pub open spec fn key_command(press: KeyPress) -> Option<AppEvent> {
    match press.key {
        Key::Esc => Some(AppEvent::Quit),
        Key::Char(c) => if c == 'q' || ((c == 'c' || c == 'C') && press.modifiers == 2) {
            Some(AppEvent::Quit)
        } else {
            None
        },
        Key::Other => None,
    }
}

/// The application as a mathematical value.
pub struct AppView {
    pub running: bool,
    pub sequencer: SequencerView,
    pub displaying: Seq<u64>,
    pub vertical_scroll: nat,
}

impl AppView {
    /// The application at its start: running, with the sequencer at its
    /// start and the first sequence on display.
    pub open spec fn initial() -> AppView {
        AppView {
            running: true,
            sequencer: SequencerView::initial(),
            displaying: seq![0u64],
            vertical_scroll: 0,
        }
    }

    /// After a tick of the front end at time `now`.
    pub open spec fn tick(self, now: nat) -> AppView {
        AppView { sequencer: self.sequencer.poll(now), ..self }
    }

    /// After the application has quit: not running, every sequence stopped.
    pub open spec fn quit(self) -> AppView {
        AppView { running: false, sequencer: self.sequencer.stop_all(), ..self }
    }

    /// After an event of the front end at time `now`.
    pub open spec fn handle(self, event: Event, now: nat) -> AppView {
        match event {
            Event::Tick => self.tick(now),
            Event::App(AppEvent::Quit) => self.quit(),
            _ => self,
        }
    }
}

/// The application: whether it runs, the sequencer, which sequences are on
/// display and how far their list is scrolled.
#[derive(Debug)]
pub struct App {
    /// Is the application running?
    pub running: bool,
    /// The patterns, the transport, the routing and the clock.
    pub sequencer: Sequencer,
    /// The ids of the sequences on display.
    pub displaying_sequences: Vec<u64>,
    /// How far the list of sequences is scrolled.
    pub vertical_scroll: usize,
}

impl View for App {
    type V = AppView;

    open spec fn view(&self) -> AppView {
        AppView {
            running: self.running,
            sequencer: self.sequencer@,
            displaying: self.displaying_sequences@,
            vertical_scroll: self.vertical_scroll as nat,
        }
    }
}

impl Default for App {
    fn default() -> (app: Self)
        ensures
            app.wf(),
            app@ == AppView::initial(),
    {
        let mut displaying_sequences: Vec<u64> = Vec::new();
        displaying_sequences.push(0);
        assert(displaying_sequences@ =~= seq![0u64]);
        App {
            running: true,
            sequencer: Sequencer::new(),
            displaying_sequences,
            vertical_scroll: 0,
        }
    }
}

impl App {
    /// The invariant of the application: that of its sequencer.
    pub open spec fn wf(&self) -> bool {
        self.sequencer.wf()
    }

    /// Constructs a new instance of [`App`].
    pub fn new() -> (app: Self)
        ensures
            app.wf(),
            app@ == AppView::initial(),
    {
        App::default()
    }

    /// Says what a key press tells the application to do. The front end
    /// queues the answer.
    pub fn handle_key_event(&self, key_event: KeyPress) -> (raised: Option<AppEvent>)
        ensures
            raised == key_command(key_event),
    {
        match key_event.key {
            Key::Esc => Some(AppEvent::Quit),
            Key::Char(c) => if c == 'q' || ((c == 'c' || c == 'C') && key_event.modifiers
                == CONTROL) {
                Some(AppEvent::Quit)
            } else {
                None
            },
            Key::Other => None,
        }
    }

    /// Takes one event of the front end at time `now`: a tick asks the
    /// clock, a key press is turned into what it tells the application to
    /// do, and a request to quit stops every sequence.
    pub fn handle_events(&mut self, event: Event, now: u64) -> (reaction: Reaction)
        requires
            old(self).wf(),
        ensures
            final(self).wf(),
            final(self)@ == old(self)@.handle(event, now as nat),
            reaction.raised == match event {
                Event::Key(press) => key_command(press),
                _ => None,
            },
            match event {
                Event::Tick => {
                    &&& reaction.report is Some <==> old(self)@.sequencer.clock.due(now as nat)
                    &&& reaction.report is Some ==> dispatch_views(reaction.report->0.events@)
                        == old(self)@.sequencer.poll_events(now as nat)
                        && reaction.report->0.dropped@ == old(self)@.sequencer.poll_dropped(
                        now as nat,
                    )
                },
                Event::App(AppEvent::Quit) => {
                    &&& reaction.report is Some
                    &&& dispatch_views(reaction.report->0.events@) == old(
                        self,
                    )@.sequencer.transport.stop_all_events()
                    &&& reaction.report->0.dropped@ == Seq::<u64>::empty()
                },
                _ => reaction.report is None,
            },
    {
        match event {
            Event::Tick => {
                let report = self.tick(now);
                Reaction { report, raised: None }
            },
            Event::Key(press) => {
                let raised = self.handle_key_event(press);
                Reaction { report: None, raised }
            },
            Event::Other => Reaction { report: None, raised: None },
            Event::App(AppEvent::Quit) => {
                let events = self.quit();
                Reaction { report: Some(TickReport { events, dropped: Vec::new() }), raised: None }
            },
        }
    }

    /// Handles the tick event of the front end: asks the playback clock at
    /// `now` and, where a step is due, advances every playing sequence.
    pub fn tick(&mut self, now: u64) -> (report: Option<TickReport>)
        requires
            old(self).wf(),
        ensures
            final(self).wf(),
            final(self)@ == old(self)@.tick(now as nat),
            report is Some <==> old(self)@.sequencer.clock.due(now as nat),
            report is Some ==> dispatch_views(report->0.events@) == old(
                self,
            )@.sequencer.poll_events(now as nat) && report->0.dropped@ == old(
                self,
            )@.sequencer.poll_dropped(now as nat),
    {
        self.sequencer.poll(now)
    }

    /// Set running to false to quit the application. Every sequence is
    /// stopped, and the note-offs of the sounding notes are returned.
    pub fn quit(&mut self) -> (events: Vec<Dispatch>)
        requires
            old(self).wf(),
        ensures
            final(self).wf(),
            final(self)@ == old(self)@.quit(),
            !final(self).running,
            dispatch_views(events@) == old(self)@.sequencer.transport.stop_all_events(),
    {
        self.running = false;
        self.sequencer.stop_all()
    }
}

} // verus!
