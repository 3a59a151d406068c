//! The recording pipeline: its states, the events it tells the overlay, and what
//! the overlay shows.

use vstd::prelude::*;

use crate::text::{joined, to_chars};

verus! {

/// A point in time of the machine's clock, carried through as it is.
#[verifier::external_type_specification]
#[verifier::external_body]
pub struct ExInstant(std::time::Instant);

/// What the pipeline is doing.
#[derive(Debug)]
pub enum PipelineState {
    Idle,
    Recording { accumulated_samples: usize, streaming_text: String, started_at: std::time::Instant },
    Transcribing,
    Enhancing { original_text: String, enhanced_text: Option<String>, provider_label: String },
    Inserting { text: String },
    Error { message: String, recoverable: bool },
}

impl Clone for PipelineState {
    fn clone(&self) -> (r: PipelineState)
        ensures
            r == *self,
    {
        match self {
            PipelineState::Idle => PipelineState::Idle,
            PipelineState::Recording { accumulated_samples, streaming_text, started_at } => {
                PipelineState::Recording {
                    accumulated_samples: *accumulated_samples,
                    streaming_text: streaming_text.clone(),
                    started_at: *started_at,
                }
            },
            PipelineState::Transcribing => PipelineState::Transcribing,
            PipelineState::Enhancing { original_text, enhanced_text, provider_label } => {
                PipelineState::Enhancing {
                    original_text: original_text.clone(),
                    enhanced_text: match enhanced_text {
                        Some(t) => Some(t.clone()),
                        None => None,
                    },
                    provider_label: provider_label.clone(),
                }
            },
            PipelineState::Inserting { text } => PipelineState::Inserting { text: text.clone() },
            PipelineState::Error { message, recoverable } => PipelineState::Error {
                message: message.clone(),
                recoverable: *recoverable,
            },
        }
    }
}

impl PipelineState {
    pub open spec fn label(self) -> Seq<char> {
        match self {
            PipelineState::Idle => "Idle"@,
            PipelineState::Recording { .. } => "Recording"@,
            PipelineState::Transcribing => "Transcribing"@,
            PipelineState::Enhancing { .. } => "Enhancing"@,
            PipelineState::Inserting { .. } => "Inserting"@,
            PipelineState::Error { .. } => "Error"@,
        }
    }

    /// The name of the state.
    pub fn name(&self) -> (s: &'static str)
        ensures
            s@ == self.label(),
    {
        match self {
            PipelineState::Idle => "Idle",
            PipelineState::Recording { .. } => "Recording",
            PipelineState::Transcribing => "Transcribing",
            PipelineState::Enhancing { .. } => "Enhancing",
            PipelineState::Inserting { .. } => "Inserting",
            PipelineState::Error { .. } => "Error",
        }
    }
}

/// What the pipeline tells the overlay.
#[derive(Debug, Clone)]
pub enum PipelineEvent {
    StateChanged(PipelineState),
    PartialTranscription(String),
    /// The bits of the level as a single-precision number.
    AudioLevel(u32),
    Error(String),
}

/// The flow from recording over transcription to insertion. Each operation hands
/// back the event that is to be sent on.
#[derive(Debug)]
pub struct Pipeline {
    pub state: PipelineState,
}

impl Pipeline {
    /// An idle pipeline.
    pub fn new() -> (p: Pipeline)
        ensures
            p.state is Idle,
    {
        Pipeline { state: PipelineState::Idle }
    }

    pub fn state(&self) -> (s: &PipelineState)
        ensures
            *s == self.state,
    {
        &self.state
    }

    /// Moves to another state and tells so.
    pub fn transition_to(&mut self, new_state: PipelineState) -> (e: PipelineEvent)
        ensures
            final(self).state == new_state,
            e == PipelineEvent::StateChanged(new_state),
    {
        self.state = new_state.clone();
        PipelineEvent::StateChanged(new_state)
    }

    /// Notes how far a recording has come; a pipeline that does not record stays
    /// as it is.
    pub fn set_recording(&mut self, samples: usize, text: String)
        ensures
            final(self).state == (match old(self).state {
                PipelineState::Recording { accumulated_samples, streaming_text, started_at } => {
                    PipelineState::Recording {
                        accumulated_samples: samples,
                        streaming_text: text,
                        started_at,
                    }
                },
                other => other,
            }),
    {
        if let PipelineState::Recording { started_at, .. } = &self.state {
            let started_at = *started_at;
            self.state = PipelineState::Recording {
                accumulated_samples: samples,
                streaming_text: text,
                started_at,
            };
        }
    }

    pub fn emit_partial(&self, text: String) -> (e: PipelineEvent)
        ensures
            e == PipelineEvent::PartialTranscription(text),
    {
        PipelineEvent::PartialTranscription(text)
    }

    pub fn emit_audio_level(&self, level: u32) -> (e: PipelineEvent)
        ensures
            e == PipelineEvent::AudioLevel(level),
    {
        PipelineEvent::AudioLevel(level)
    }

    pub fn emit_error(&self, msg: String) -> (e: PipelineEvent)
        ensures
            e == PipelineEvent::Error(msg),
    {
        PipelineEvent::Error(msg)
    }
}

/// The colours of the overlay.
#[derive(Debug, Clone, Copy, PartialEq, Eq, Structural)]
pub enum Tone {
    Red,
    Yellow,
    Green,
    White,
}

/// The overlay: the state and the texts that it was told last.
#[derive(Debug)]
pub struct FluidityApp {
    pub state: PipelineState,
    pub partial_text: String,
    pub recording_started: Option<std::time::Instant>,
}

/// What an overlay knows.
pub struct OverlayModel {
    pub state: PipelineState,
    pub partial: Seq<char>,
    pub since: Option<std::time::Instant>,
}

impl View for FluidityApp {
    type V = OverlayModel;

    open spec fn view(&self) -> OverlayModel {
        OverlayModel {
            state: self.state,
            partial: self.partial_text@,
            since: self.recording_started,
        }
    }
}

impl OverlayModel {
    /// The overlay after an event that arrived at `now`. A recording is timed from
    /// the arrival of its event, and an idle pipeline leaves no text behind.
    pub open spec fn told(self, event: PipelineEvent, now: std::time::Instant) -> OverlayModel {
        match event {
            PipelineEvent::StateChanged(s) => OverlayModel {
                state: s,
                partial: if s is Idle {
                    Seq::<char>::empty()
                } else {
                    self.partial
                },
                since: if s is Recording {
                    Some(now)
                } else {
                    self.since
                },
            },
            PipelineEvent::PartialTranscription(t) => OverlayModel { partial: t@, ..self },
            PipelineEvent::AudioLevel(_) => self,
            PipelineEvent::Error(e) => OverlayModel { partial: "Error: "@ + e@, ..self },
        }
    }

    /// The overlay after a number of events.
    pub open spec fn told_all(
        self,
        events: Seq<(PipelineEvent, std::time::Instant)>,
    ) -> OverlayModel
        decreases events.len(),
    {
        if events.len() == 0 {
            self
        } else {
            self.told_all(events.drop_last()).told(events.last().0, events.last().1)
        }
    }
}

/// The overlay follows the pipeline: once it has been told of a state, it is in
/// that state until it is told of another, whatever else it hears.
pub proof fn law_overlay_follows_the_pipeline(
    o: OverlayModel,
    events: Seq<(PipelineEvent, std::time::Instant)>,
    s: PipelineState,
    at: std::time::Instant,
    others: Seq<(PipelineEvent, std::time::Instant)>,
)
    requires
        forall|i: int| 0 <= i < others.len() ==> !((#[trigger] others[i]).0 is StateChanged),
    ensures
        o.told_all(events.push((PipelineEvent::StateChanged(s), at)) + others).state == s,
        s is Recording ==> o.told_all(
            events.push((PipelineEvent::StateChanged(s), at)) + others,
        ).since == Some(at),
    decreases others.len(),
{
    let told = events.push((PipelineEvent::StateChanged(s), at));
    if others.len() == 0 {
        assert(told + others =~= told);
        assert(told.drop_last() =~= events);
    } else {
        let rest = others.drop_last();
        assert forall|i: int| 0 <= i < rest.len() implies !((
        #[trigger] rest[i]).0 is StateChanged) by {
            assert(rest[i] == others[i]);
        }
        law_overlay_follows_the_pipeline(o, events, s, at, rest);
        assert((told + others).drop_last() =~= told + rest);
        assert((told + others).last() == others[others.len() - 1]);
    }
}

/// The sign before the name of a state, and the colour of both.
pub open spec fn state_sign(state: PipelineState) -> (Seq<char>, Tone) {
    match state {
        PipelineState::Recording { .. } => ("\u{25CF}"@, Tone::Red),
        PipelineState::Transcribing => ("\u{25CB}"@, Tone::Yellow),
        PipelineState::Enhancing { .. } => ("\u{25CB}"@, Tone::Yellow),
        PipelineState::Inserting { .. } => ("\u{2192}"@, Tone::Green),
        PipelineState::Error { .. } => ("!"@, Tone::Red),
        PipelineState::Idle => (""@, Tone::White),
    }
}

/// What a frame of the overlay shows.
#[derive(Debug)]
pub struct OverlayView {
    /// The sign and the name of the state.
    pub title: String,
    pub tone: Tone,
    /// Since when a recording has run, where one does.
    pub recording_since: Option<std::time::Instant>,
    /// The text below, where there is one.
    pub text: Option<String>,
}

impl FluidityApp {
    /// An overlay that has been told nothing.
    pub fn new() -> (o: FluidityApp)
        ensures
            o.state is Idle,
            o.partial_text@.len() == 0,
            o.recording_started is None,
    {
        FluidityApp {
            state: PipelineState::Idle,
            partial_text: String::new(),
            recording_started: None,
        }
    }

    /// Takes in one event, which arrived at `now`.
    pub fn on_event(&mut self, event: PipelineEvent, now: std::time::Instant)
        ensures
            final(self)@ == old(self)@.told(event, now),
    {
        match event {
            PipelineEvent::StateChanged(s) => {
                if let PipelineState::Recording { .. } = &s {
                    self.recording_started = Some(now);
                }
                if let PipelineState::Idle = &s {
                    self.partial_text = String::new();
                }
                self.state = s;
            },
            PipelineEvent::PartialTranscription(t) => {
                self.partial_text = t;
            },
            PipelineEvent::AudioLevel(_) => {},
            PipelineEvent::Error(e) => {
                self.partial_text = joined("Error: ", e.as_str());
            },
        }
    }

    /// Whether the overlay is to be seen.
    pub fn is_visible(&self) -> (b: bool)
        ensures
            b == !(self.state is Idle),
    {
        match self.state {
            PipelineState::Idle => false,
            _ => true,
        }
    }

    /// How many milliseconds may pass before the next frame.
    pub fn repaint_after(&self) -> (ms: u64)
        ensures
            ms == (if self.state is Idle {
                200u64
            } else {
                50u64
            }),
    {
        if self.is_visible() {
            50
        } else {
            200
        }
    }

    /// The text below the state.
    pub open spec fn shown_text(self) -> Seq<char> {
        match self.state {
            PipelineState::Recording { streaming_text, .. } => if streaming_text@.len() > 0 {
                streaming_text@
            } else {
                self.partial_text@
            },
            PipelineState::Inserting { text } => text@,
            PipelineState::Error { message, .. } => message@,
            _ => ""@,
        }
    }

    fn display_text(&self) -> (s: String)
        ensures
            s@ == self.shown_text(),
    {
        match &self.state {
            PipelineState::Recording { streaming_text, .. } => if to_chars(
                streaming_text.as_str(),
            ).len() > 0 {
                streaming_text.clone()
            } else {
                self.partial_text.clone()
            },
            PipelineState::Inserting { text } => text.clone(),
            PipelineState::Error { message, .. } => message.clone(),
            _ => "".to_owned(),
        }
    }

    fn sign(&self) -> (r: (&'static str, Tone))
        ensures
            (r.0@, r.1) == state_sign(self.state),
    {
        match &self.state {
            PipelineState::Recording { .. } => ("\u{25CF}", Tone::Red),
            PipelineState::Transcribing => ("\u{25CB}", Tone::Yellow),
            PipelineState::Enhancing { .. } => ("\u{25CB}", Tone::Yellow),
            PipelineState::Inserting { .. } => ("\u{2192}", Tone::Green),
            PipelineState::Error { .. } => ("!", Tone::Red),
            PipelineState::Idle => ("", Tone::White),
        }
    }

    /// What the next frame shows: nothing while the pipeline is idle.
    pub fn view_frame(&self) -> (r: Option<OverlayView>)
        ensures
            r is None <==> self.state is Idle,
            r matches Some(v) ==> {
                &&& v.title@ == state_sign(self.state).0 + " "@ + self.state.label()
                &&& v.tone == state_sign(self.state).1
                &&& v.recording_since == (if self.state is Recording {
                    self.recording_started
                } else {
                    None
                })
                &&& v.text is Some <==> self.shown_text().len() > 0
                &&& v.text matches Some(t) ==> t@ == self.shown_text()
            },
    {
        if !self.is_visible() {
            return None;
        }
        let (sign, tone) = self.sign();
        let head = joined(sign, " ");
        let title = joined(head.as_str(), self.state.name());
        let recording_since = match &self.state {
            PipelineState::Recording { .. } => self.recording_started,
            _ => None,
        };
        let shown = self.display_text();
        let text = if to_chars(shown.as_str()).len() > 0 {
            Some(shown)
        } else {
            None
        };
        Some(OverlayView { title, tone, recording_since, text })
    }
}

/// The names of the states.
pub proof fn law_names_of_states(s: PipelineState)
    ensures
        s.label() == (match s {
            PipelineState::Idle => "Idle"@,
            PipelineState::Recording { .. } => "Recording"@,
            PipelineState::Transcribing => "Transcribing"@,
            PipelineState::Enhancing { .. } => "Enhancing"@,
            PipelineState::Inserting { .. } => "Inserting"@,
            PipelineState::Error { .. } => "Error"@,
        }),
{
}

/// The signs of the states: a red dot while recording, a yellow ring while a text is
/// made, a green arrow while it is inserted, and a red mark for an error.
pub proof fn law_signs_of_states(s: PipelineState)
    ensures
        s is Recording ==> state_sign(s) == ("\u{25CF}"@, Tone::Red),
        s is Transcribing || s is Enhancing ==> state_sign(s) == ("\u{25CB}"@, Tone::Yellow),
        s is Inserting ==> state_sign(s) == ("\u{2192}"@, Tone::Green),
        s is Error ==> state_sign(s) == ("!"@, Tone::Red),
        s is Idle ==> state_sign(s) == (""@, Tone::White),
{
}

/// A text that came in parts is what was said of it last; an error is told as one.
/// Neither changes the state, and an idle pipeline leaves no text.
pub proof fn law_overlay_keeps_the_last_text(
    o: OverlayModel,
    t: String,
    level: u32,
    s: PipelineState,
    now: std::time::Instant,
)
    ensures
        o.told(PipelineEvent::PartialTranscription(t), now) == (OverlayModel { partial: t@, ..o }),
        o.told(PipelineEvent::Error(t), now) == (OverlayModel { partial: "Error: "@ + t@, ..o }),
        o.told(PipelineEvent::AudioLevel(level), now) == o,
        s is Idle ==> o.told(PipelineEvent::StateChanged(s), now).partial == Seq::<char>::empty(),
        !(s is Idle) ==> o.told(PipelineEvent::StateChanged(s), now).partial == o.partial,
        !(s is Recording) ==> o.told(PipelineEvent::StateChanged(s), now).since == o.since,
{
}

/// While recording, the overlay shows the text of the recording, or where that is
/// empty the last part; while inserting it shows the text, and for an error its
/// message. Otherwise it shows none.
pub proof fn law_overlay_shows(o: FluidityApp)
    ensures
        o.state matches PipelineState::Recording { streaming_text, .. } ==> o.shown_text() == (
        if streaming_text@.len() > 0 {
            streaming_text@
        } else {
            o.partial_text@
        }),
        o.state matches PipelineState::Inserting { text } ==> o.shown_text() == text@,
        o.state matches PipelineState::Error { message, .. } ==> o.shown_text() == message@,
        o.state is Idle || o.state is Transcribing || o.state is Enhancing ==> o.shown_text().len()
            == 0,
{
    reveal_strlit("");
}

} // verus!
