//! The cycle of a dictation.
//!
//! What happens when the shortcut is pressed is ordered by what is felt as
//! delay: the sound first, before anything that can fail; then the microphone,
//! since the first sound must not be lost; then the window, which is there
//! already; then the connection, while the user speaks.
//!
//! What happens when it is pressed again is a machine: a recording is saved,
//! judged, transcribed, rewritten and delivered, and at each of these steps the
//! outside world may fail without the words being lost.

use vstd::prelude::*;

use crate::api::{rewritten, rewritten_text, RewriteResult};
use crate::audio::{Capture, Recording};
use crate::config::{OutputAction, SubmitKey, SubmitMode};
use crate::outside::char_lower;
use crate::paste::{
    ends_in_keyword, fit_to_context, fitted, keeps_own_case_of, keyword_stands,
    law_the_keyword_decides, resolve_submit, resolved,
};
use crate::recordings::{judged, outcome_view, Status};
use crate::sounds::Cue;
use crate::stt_stream::LiveTranscript;
use crate::text::{blank, copy_text, is_blank, optional, optional_str, trim, trim_end, trimmed};

verus! {

/// How often the levels are read, in milliseconds: each value settles before the
/// next one comes.
pub const LEVEL_POLL_MS: u64 = 50;

/// How many bars the wave has: two pixels each, and two between, make the width
/// that the window has for it.
pub const BARS_NORMAL: usize = 37;

/// As many, whatever key is held.
pub const BARS_PUSH_TO_TALK: usize = 37;

/// How long the window stays after a success, in milliseconds.
pub const SUCCESS_HOLD_MS: u64 = 2000;

/// How often new sound goes to the live transcription, in milliseconds.
pub const LIVE_PUSH_MS: u64 = 250;

#[derive(Debug, Clone, Copy, PartialEq, Eq, Structural)]
pub enum Phase {
    Idle,
    Recording,
    Transcribing,
}

impl Phase {
    /// The name under which the phase travels.
    pub open spec fn called(self) -> Seq<char> {
        match self {
            Phase::Idle => "idle"@,
            Phase::Recording => "recording"@,
            Phase::Transcribing => "transcribing"@,
        }
    }

    /// The name under which the phase travels.
    pub fn name(self) -> (name: &'static str)
        ensures
            name@ == self.called(),
            name@ == match self {
                Phase::Idle => "idle"@,
                Phase::Recording => "recording"@,
                Phase::Transcribing => "transcribing"@,
            },
    {
        match self {
            Phase::Idle => "idle",
            Phase::Recording => "recording",
            Phase::Transcribing => "transcribing",
        }
    }
}

// ------------------------------------------------------------------ the session

/// A dictation as it is going on.
#[derive(Debug)]
pub struct DictationSession {
    pub phase: Phase,
    pub push_to_talk: bool,
    /// The live transcription is running.
    pub live: bool,
    /// What stood before the caret when the dictation began.
    pub text_before_caret: Option<String>,
}

/// A dictation as it is going on.
pub ghost struct SessionView {
    pub phase: Phase,
    pub push_to_talk: bool,
    pub live: bool,
    pub text_before_caret: Option<Seq<char>>,
}

impl View for DictationSession {
    type V = SessionView;

    open spec fn view(&self) -> SessionView {
        SessionView {
            phase: self.phase,
            push_to_talk: self.push_to_talk,
            live: self.live,
            text_before_caret: optional(self.text_before_caret),
        }
    }
}

/// No dictation.
pub open spec fn at_rest() -> SessionView {
    SessionView { phase: Phase::Idle, push_to_talk: false, live: false, text_before_caret: None }
}

/// What beginning a dictation does, in this order. Where the microphone cannot be
/// opened, nothing after it is done.
#[derive(Debug, Clone, Copy, PartialEq, Eq, Structural)]
pub enum StartStep {
    Play(Cue),
    OpenMicrophone,
    /// The floating window is shown as a bar.
    ShowHud { push_to_talk: bool },
    /// The window of the live text is shown, or hidden.
    ShowLiveWindow(bool),
    /// The connection to the service is opened ahead of time.
    Prewarm,
    /// The live transcription begins.
    LiveTranscription,
}

/// What beginning a dictation does.
pub open spec fn start_steps(
    push_to_talk: bool,
    live_transcription: bool,
    show_live_transcription: bool,
) -> Seq<StartStep> {
    let steps = seq![
        StartStep::Play(Cue::DictationStart),
        StartStep::OpenMicrophone,
        StartStep::ShowHud { push_to_talk },
        StartStep::ShowLiveWindow(live_transcription && show_live_transcription),
        StartStep::Prewarm,
    ];
    if live_transcription {
        steps.push(StartStep::LiveTranscription)
    } else {
        steps
    }
}

/// What giving up a dictation does, in this order.
#[derive(Debug, Clone, Copy, PartialEq, Eq, Structural)]
pub enum CancelStep {
    AbortStream,
    HideHud,
    HideLiveWindow,
}

/// What the shortcut of the dictation does.
#[derive(Debug, Clone, Copy, PartialEq, Eq, Structural)]
pub enum Toggle {
    Start,
    StopAndDeliver,
}

/// What is done at each beat of the live transcription.
#[derive(Debug, Clone, Copy, PartialEq, Eq, Structural)]
pub struct LiveBeat {
    /// The new sound is sent.
    pub push: bool,
    /// The recording is over, and so is the beat.
    pub stop: bool,
    /// The text is shown.
    pub publish: bool,
}

impl DictationSession {
    /// No dictation.
    pub fn new() -> (session: DictationSession)
        ensures
            session@ == at_rest(),
    {
        DictationSession {
            phase: Phase::Idle,
            push_to_talk: false,
            live: false,
            text_before_caret: None,
        }
    }

    pub fn phase(&self) -> (phase: Phase)
        ensures
            phase == self@.phase,
    {
        self.phase
    }

    /// How many bars the wave has.
    pub fn bar_count(&self) -> (bars: usize)
        ensures
            bars == if self@.push_to_talk {
                BARS_PUSH_TO_TALK
            } else {
                BARS_NORMAL
            },
            bars == 37,
    {
        if self.push_to_talk {
            BARS_PUSH_TO_TALK
        } else {
            BARS_NORMAL
        }
    }

    /// What the live transcription shows: nothing where there is none.
    pub fn live_text(&self, stream: Option<&LiveTranscript>) -> (text: String)
        ensures
            text@ == match stream {
                Some(transcript) => transcript@.shown(),
                None => Seq::empty(),
            },
    {
        match stream {
            Some(transcript) => transcript.display_text(),
            None => String::new(),
        }
    }

    /// The heights of the bars, the newest last: all of them at rest where nothing
    /// is recorded.
    pub fn levels(&self, capture: Option<&Capture>) -> (levels: Vec<u16>)
        ensures
            levels@.len() == 37,
            levels@ == match capture {
                Some(recording) => recording.last_levels(37),
                None => Seq::new(37, |i: int| 0u16),
            },
    {
        let bars: usize = self.bar_count();
        match capture {
            Some(recording) => recording.levels(bars),
            None => {
                let mut levels: Vec<u16> = Vec::new();
                let mut i: usize = 0;
                while i < bars
                    invariant
                        i <= bars,
                        levels@ == Seq::new(i as nat, |k: int| 0u16),
                    decreases bars - i,
                {
                    levels.push(0);
                    i = i + 1;
                    proof {
                        assert(levels@ =~= Seq::new(i as nat, |k: int| 0u16));
                    }
                }
                levels
            },
        }
    }
}

/// The dictations, one at a time.
#[derive(Debug)]
pub struct Dictation {
    pub session: DictationSession,
}

impl View for Dictation {
    type V = SessionView;

    open spec fn view(&self) -> SessionView {
        self.session@
    }
}

impl Dictation {
    /// No dictation.
    pub fn new() -> (dictation: Dictation)
        ensures
            dictation@ == at_rest(),
    {
        Dictation { session: DictationSession::new() }
    }

    /// What beginning a dictation does: nothing where there is one already.
    pub fn start(
        &self,
        push_to_talk: bool,
        live_transcription: bool,
        show_live_transcription: bool,
    ) -> (steps: Vec<StartStep>)
        ensures
            steps@ == if self@.phase == Phase::Idle {
                start_steps(push_to_talk, live_transcription, show_live_transcription)
            } else {
                Seq::<StartStep>::empty()
            },
    {
        if self.session.phase != Phase::Idle {
            return Vec::new();
        }
        let mut steps = vec![
            StartStep::Play(Cue::DictationStart),
            StartStep::OpenMicrophone,
            StartStep::ShowHud { push_to_talk },
            StartStep::ShowLiveWindow(live_transcription && show_live_transcription),
            StartStep::Prewarm,
        ];
        if live_transcription {
            steps.push(StartStep::LiveTranscription);
        }
        proof {
            assert(steps@ =~= start_steps(
                push_to_talk,
                live_transcription,
                show_live_transcription,
            ));
        }
        steps
    }

    /// The microphone is open: the recording runs.
    pub fn recording(&mut self, push_to_talk: bool)
        ensures
            final(self)@ == (SessionView {
                phase: Phase::Recording,
                push_to_talk,
                text_before_caret: None,
                ..old(self)@
            }),
    {
        self.session.phase = Phase::Recording;
        self.session.push_to_talk = push_to_talk;
        self.session.text_before_caret = None;
    }

    /// The live transcription is connected. It is of no use where the recording is
    /// over by then.
    pub fn live_connected(&mut self) -> (used: bool)
        ensures
            used == (old(self)@.phase == Phase::Recording),
            final(self)@ == if used {
                SessionView { live: true, ..old(self)@ }
            } else {
                old(self)@
            },
    {
        if self.session.phase != Phase::Recording {
            return false;
        }
        self.session.live = true;
        true
    }

    /// What is done at a beat of the live transcription, given how many samples
    /// are new and what there is to show.
    pub fn live_beat(&self, fresh: usize, shown: &str) -> (beat: LiveBeat)
        ensures
            beat.push == (fresh > 0),
            beat.stop == (self@.phase != Phase::Recording),
            beat.publish == (!beat.stop && shown@.len() > 0),
    {
        let stop = self.session.phase != Phase::Recording;
        LiveBeat { push: fresh > 0, stop, publish: !stop && !shown.is_empty() }
    }

    /// What the shortcut does: it begins a dictation, or ends and delivers it.
    pub fn toggle(&self) -> (toggle: Toggle)
        ensures
            toggle == if self@.phase == Phase::Recording {
                Toggle::StopAndDeliver
            } else {
                Toggle::Start
            },
    {
        if self.session.phase == Phase::Recording {
            Toggle::StopAndDeliver
        } else {
            Toggle::Start
        }
    }

    /// Ends the recording, if one runs, and tells whether the rest of the sound
    /// goes to the live transcription first.
    pub fn stop_recording(&mut self) -> (stopped: Option<bool>)
        ensures
            stopped == if old(self)@.phase == Phase::Recording {
                Some(old(self)@.live)
            } else {
                None
            },
            final(self)@ == if old(self)@.phase == Phase::Recording {
                SessionView { phase: Phase::Transcribing, ..old(self)@ }
            } else {
                old(self)@
            },
    {
        if self.session.phase != Phase::Recording {
            return None;
        }
        self.session.phase = Phase::Transcribing;
        Some(self.session.live)
    }

    /// Back to rest.
    pub fn reset(&mut self)
        ensures
            final(self)@ == at_rest(),
            final(self)@.phase == Phase::Idle,
            !final(self)@.push_to_talk && !final(self)@.live,
            final(self)@.text_before_caret is None,
    {
        self.session.phase = Phase::Idle;
        self.session.push_to_talk = false;
        self.session.live = false;
        self.session.text_before_caret = None;
    }

    /// Gives a dictation up, without a transcription.
    pub fn cancel(&mut self) -> (steps: Vec<CancelStep>)
        ensures
            final(self)@ == at_rest(),
            steps@ == if old(self)@.live {
                seq![CancelStep::AbortStream, CancelStep::HideHud, CancelStep::HideLiveWindow]
            } else {
                seq![CancelStep::HideHud, CancelStep::HideLiveWindow]
            },
    {
        let live = self.session.live;
        self.reset();
        if live {
            vec![CancelStep::AbortStream, CancelStep::HideHud, CancelStep::HideLiveWindow]
        } else {
            vec![CancelStep::HideHud, CancelStep::HideLiveWindow]
        }
    }
}

// -------------------------------------------------------------------- delivery

/// The preferences that a delivery looks at.
#[derive(Debug, Clone, Copy, PartialEq, Eq, Structural)]
pub struct DeliveryPrefs {
    pub submit_mode: SubmitMode,
    pub submit_key: SubmitKey,
    pub rewrite: bool,
    pub output_action: OutputAction,
}

/// What the floating window is told.
#[derive(Debug, Clone, Copy)]
pub struct Notice {
    pub state: &'static str,
    pub title: Option<&'static str>,
    pub message: Option<&'static str>,
}

/// What the floating window is told.
pub ghost struct NoticeView {
    pub state: Seq<char>,
    pub title: Option<Seq<char>>,
    pub message: Option<Seq<char>>,
}

impl View for Notice {
    type V = NoticeView;

    open spec fn view(&self) -> NoticeView {
        NoticeView {
            state: self.state@,
            title: optional_str(self.title),
            message: optional_str(self.message),
        }
    }
}

/// What a delivery has done.
#[derive(Debug)]
pub enum Effect {
    /// The recording is written to disk.
    SaveBackup,
    /// What became of the recording is noted beside it.
    NoteBackup { status: Status, text: Option<String>, error: Option<String> },
    /// The live transcription is ended, and its text asked for.
    CloseStream,
    /// The recording is transcribed.
    Transcribe,
    /// The text is rewritten.
    Rewrite(String),
    /// The text is put into the clipboard.
    ToClipboard(String),
    /// The text is pasted and, where a key is given, sent.
    Paste(String, Option<SubmitKey>),
    /// The session goes back to rest.
    Reset,
    Emit(Notice),
    Play(Cue),
}

/// What a delivery has done.
pub ghost enum EffectView {
    SaveBackup,
    NoteBackup { status: Status, text: Option<Seq<char>>, error: Option<Seq<char>> },
    CloseStream,
    Transcribe,
    Rewrite(Seq<char>),
    ToClipboard(Seq<char>),
    Paste(Seq<char>, Option<SubmitKey>),
    Reset,
    Emit(NoticeView),
    Play(Cue),
}

impl View for Effect {
    type V = EffectView;

    open spec fn view(&self) -> EffectView {
        match self {
            Effect::SaveBackup => EffectView::SaveBackup,
            Effect::NoteBackup { status, text, error } => EffectView::NoteBackup {
                status: *status,
                text: optional(*text),
                error: optional(*error),
            },
            Effect::CloseStream => EffectView::CloseStream,
            Effect::Transcribe => EffectView::Transcribe,
            Effect::Rewrite(text) => EffectView::Rewrite(text@),
            Effect::ToClipboard(text) => EffectView::ToClipboard(text@),
            Effect::Paste(text, key) => EffectView::Paste(text@, *key),
            Effect::Reset => EffectView::Reset,
            Effect::Emit(notice) => EffectView::Emit(notice@),
            Effect::Play(cue) => EffectView::Play(*cue),
        }
    }
}

/// What a list of effects reads as.
pub open spec fn effects_view(effects: Seq<Effect>) -> Seq<EffectView> {
    effects.map_values(|effect: Effect| effect@)
}

/// What a delivery waits for.
#[derive(Debug)]
pub enum Stage {
    /// The recording is being saved.
    Saving,
    /// The live transcription is being ended.
    ClosingStream,
    /// The recording is being transcribed; this is what was understood live.
    Transcribing { reserve: String },
    /// The text is being rewritten.
    Rewriting { text: String, submit: bool },
    /// The text is being delivered.
    Delivering { text: String },
    /// The delivery failed, and the text is put into the clipboard.
    Rescuing { text: String },
    /// It is over, with the text that was delivered or with a failure.
    Finished(Result<String, String>),
}

/// What a delivery waits for.
pub ghost enum StageView {
    Saving,
    ClosingStream,
    Transcribing { reserve: Seq<char> },
    Rewriting { draft: Seq<char>, submit: bool },
    Delivering { text: Seq<char> },
    Rescuing { lost: Seq<char> },
    Finished(Result<Seq<char>, Seq<char>>),
}

impl View for Stage {
    type V = StageView;

    open spec fn view(&self) -> StageView {
        match self {
            Stage::Saving => StageView::Saving,
            Stage::ClosingStream => StageView::ClosingStream,
            Stage::Transcribing { reserve } => StageView::Transcribing { reserve: reserve@ },
            Stage::Rewriting { text, submit } => StageView::Rewriting {
                draft: text@,
                submit: *submit,
            },
            Stage::Delivering { text } => StageView::Delivering { text: text@ },
            Stage::Rescuing { text } => StageView::Rescuing { lost: text@ },
            Stage::Finished(outcome) => StageView::Finished(outcome_view(*outcome)),
        }
    }
}

/// What has happened.
#[derive(Debug)]
pub enum Event {
    /// It was tried to save the recording.
    Saved,
    /// The live transcription ended, with its text or with a failure; this is what
    /// it showed.
    StreamClosed { outcome: Result<String, String>, shown: String },
    /// The transcription came, or failed.
    Transcribed(Result<String, String>),
    /// The rewritten text came, or failed.
    Rewritten(Option<RewriteResult>),
    /// The text was delivered, or not.
    Delivered(bool),
    /// The text is in the clipboard, or not.
    Rescued(bool),
}

/// What has happened.
pub ghost enum EventView {
    Saved,
    StreamClosed { closing: Result<Seq<char>, Seq<char>>, shown: Seq<char> },
    Transcribed(Result<Seq<char>, Seq<char>>),
    Rewritten(Option<Seq<char>>),
    Delivered(bool),
    Rescued(bool),
}

impl View for Event {
    type V = EventView;

    open spec fn view(&self) -> EventView {
        match self {
            Event::Saved => EventView::Saved,
            Event::StreamClosed { outcome, shown } => EventView::StreamClosed {
                closing: outcome_view(*outcome),
                shown: shown@,
            },
            Event::Transcribed(outcome) => EventView::Transcribed(outcome_view(*outcome)),
            Event::Rewritten(result) => EventView::Rewritten(
                match result {
                    Some(made) => Some(made.text@),
                    None => None,
                },
            ),
            Event::Delivered(done) => EventView::Delivered(*done),
            Event::Rescued(done) => EventView::Rescued(*done),
        }
    }
}

/// What a delivery knows from the start.
pub ghost struct Context {
    pub prefs: DeliveryPrefs,
    pub keyword: Seq<char>,
    /// Somebody spoke, for long enough.
    pub speech: bool,
    /// The live transcription was running.
    pub live: bool,
    pub before_caret: Option<Seq<char>>,
}

/// The window says that nobody spoke.
pub open spec fn nothing_heard() -> NoticeView {
    NoticeView { state: "warning"@, title: Some("Nenhuma fala detectada"@), message: None }
}

/// How a dictation ends in which nobody spoke.
pub open spec fn heard_nothing(status: Status) -> (StageView, Seq<EffectView>) {
    (
        StageView::Finished(Ok(Seq::empty())),
        seq![
            EffectView::NoteBackup { status, text: None, error: None },
            EffectView::Reset,
            EffectView::Emit(nothing_heard()),
            EffectView::Play(Cue::DictationFailure),
        ],
    )
}

/// The delivery of a text: fitted to the caret, and copied or pasted.
pub open spec fn delivering(context: Context, text: Seq<char>, submit: bool) -> (
    StageView,
    EffectView,
) {
    let last = fitted(
        text,
        context.before_caret,
        keeps_own_case_of(text),
        char_lower(text[0]),
    );
    (
        StageView::Delivering { text: last },
        match context.prefs.output_action {
            OutputAction::Clipboard => EffectView::ToClipboard(last),
            OutputAction::Paste => EffectView::Paste(
                last,
                if submit {
                    Some(context.prefs.submit_key)
                } else {
                    None
                },
            ),
        },
    )
}

/// What follows once there is a transcription with something in it: the keyword
/// is taken off first, so that the model that rewrites does not take it for
/// something that was said.
pub open spec fn transcribed(context: Context, text: Seq<char>) -> (StageView, Seq<EffectView>) {
    let (kept, submit) = resolved(text, context.prefs.submit_mode, context.keyword);
    if context.prefs.rewrite {
        (
            StageView::Rewriting { draft: kept, submit },
            seq![
                EffectView::Emit(
                    NoticeView { state: "rewriting"@, title: Some("Ajustando"@), message: None },
                ),
                EffectView::Rewrite(kept),
            ],
        )
    } else {
        let (stage, effect) = delivering(context, kept, submit);
        (stage, seq![effect])
    }
}

/// What the live transcription understood: where it did not end well, what it
/// showed still counts.
pub open spec fn understood(closing: Result<Seq<char>, Seq<char>>, shown: Seq<char>) -> Seq<char> {
    match closing {
        Ok(text) => text,
        Err(_) => shown,
    }
}

/// What follows an event. One that the delivery does not wait for changes
/// nothing.
pub open spec fn delivery_step(context: Context, stage: StageView, event: EventView) -> (
    StageView,
    Seq<EffectView>,
) {
    match (stage, event) {
        (StageView::Saving, EventView::Saved) => if !context.speech {
            heard_nothing(Status::SemFala)
        } else if context.live {
            (StageView::ClosingStream, seq![EffectView::CloseStream])
        } else {
            (StageView::Transcribing { reserve: Seq::empty() }, seq![EffectView::Transcribe])
        },
        (StageView::ClosingStream, EventView::StreamClosed { closing, shown }) => (
            StageView::Transcribing { reserve: understood(closing, shown) },
            seq![EffectView::Transcribe],
        ),
        (StageView::Transcribing { reserve }, EventView::Transcribed(outcome)) => {
            let (status, text, error) = judged(outcome);
            let note = EffectView::NoteBackup { status, text, error };
            match outcome {
                Ok(answer) => if is_blank(answer) {
                    heard_nothing(Status::Vazio)
                } else {
                    let (next, effects) = transcribed(context, trim(answer));
                    (next, seq![note] + effects)
                },
                Err(reason) => if !is_blank(reserve) {
                    let (next, effects) = transcribed(context, trim(reserve));
                    (
                        next,
                        seq![
                            note,
                            EffectView::Emit(
                                NoticeView {
                                    state: "warning"@,
                                    title: Some("Texto parcial"@),
                                    message: Some(
                                        "A transcrição final falhou; este veio do reconhecimento ao vivo."@,
                                    ),
                                },
                            ),
                        ] + effects,
                    )
                } else {
                    (
                        StageView::Finished(Err(reason)),
                        seq![
                            note,
                            EffectView::Reset,
                            EffectView::Emit(
                                NoticeView {
                                    state: "error"@,
                                    title: Some("Transcrição falhou"@),
                                    message: Some("Tente de novo"@),
                                },
                            ),
                            EffectView::Play(Cue::DictationFailure),
                        ],
                    )
                },
            }
        },
        (StageView::Rewriting { draft, submit }, EventView::Rewritten(result)) => {
            let (next, effect) = delivering(context, rewritten_text(draft, result), submit);
            (next, seq![effect])
        },
        (StageView::Delivering { text }, EventView::Delivered(true)) => (
            StageView::Finished(Ok(text)),
            seq![
                EffectView::Reset,
                EffectView::Emit(
                    NoticeView {
                        state: "success"@,
                        title: Some(
                            match context.prefs.output_action {
                                OutputAction::Clipboard => "Copiado"@,
                                OutputAction::Paste => "Colado"@,
                            },
                        ),
                        message: None,
                    },
                ),
                EffectView::Play(Cue::DictationSuccess),
            ],
        ),
        (StageView::Delivering { text }, EventView::Delivered(false)) => (
            StageView::Rescuing { lost: text },
            seq![EffectView::Reset, EffectView::ToClipboard(text)],
        ),
        (StageView::Rescuing { lost }, EventView::Rescued(done)) => (
            StageView::Finished(Ok(lost)),
            seq![
                EffectView::Emit(
                    if done {
                        NoticeView {
                            state: "warning"@,
                            title: Some("Transcrição copiada"@),
                            message: Some("Não deu para colar no app ativo."@),
                        }
                    } else {
                        NoticeView {
                            state: "error"@,
                            title: Some("Falha ao entregar o texto"@),
                            message: None,
                        }
                    },
                ),
                EffectView::Play(Cue::DictationFailure),
            ],
        ),
        _ => (stage, Seq::empty()),
    }
}

/// A recording on its way to becoming text.
#[derive(Debug)]
pub struct Delivery {
    pub prefs: DeliveryPrefs,
    pub keyword: String,
    pub speech: bool,
    pub live: bool,
    pub before_caret: Option<String>,
    pub stage: Stage,
}

impl Delivery {
    pub open spec fn context(self) -> Context {
        Context {
            prefs: self.prefs,
            keyword: self.keyword@,
            speech: self.speech,
            live: self.live,
            before_caret: optional(self.before_caret),
        }
    }

    /// Begins a delivery: before anything that can fail, the recording is saved.
    /// It counts as speech where a voice was heard in it and it is not too short.
    pub fn new(
        prefs: DeliveryPrefs,
        keyword: String,
        recording: &Recording,
        live: bool,
        before_caret: Option<String>,
    ) -> (begun: (Delivery, Effect))
        ensures
            begun.0.stage@ == StageView::Saving,
            begun.0.context() == (Context {
                prefs,
                keyword: keyword@,
                speech: recording.speech_detected && !recording.is_short(),
                live,
                before_caret: optional(before_caret),
            }),
            begun.1@ == EffectView::SaveBackup,
            begun.1 is SaveBackup,
            begun.0.prefs == prefs && begun.0.keyword == keyword,
            begun.0.speech <==> recording.speech_detected && recording.samples@.len() >= 4_000,
            begun.0.live == live && begun.0.before_caret == before_caret,
    {
        let speech = recording.speech_detected && !recording.too_short();
        (
            Delivery { prefs, keyword, speech, live, before_caret, stage: Stage::Saving },
            Effect::SaveBackup,
        )
    }

    /// The effects of a dictation in which nobody spoke.
    fn hear_nothing(status: Status) -> (out: (Stage, Vec<Effect>))
        ensures
            (out.0@, effects_view(out.1@)) == heard_nothing(status),
    {
        let effects = vec![
            Effect::NoteBackup { status, text: None, error: None },
            Effect::Reset,
            Effect::Emit(
                Notice { state: "warning", title: Some("Nenhuma fala detectada"), message: None },
            ),
            Effect::Play(Cue::DictationFailure),
        ];
        let stage = Stage::Finished(Ok(String::new()));
        proof {
            assert(effects_view(effects@) =~= heard_nothing(status).1);
            assert(stage@->Finished_0->Ok_0 =~= Seq::<char>::empty());
        }
        (stage, effects)
    }

    /// The delivery of a text.
    fn deliver_text(&self, text: &str, submit: bool) -> (out: (Stage, Effect))
        ensures
            (out.0@, out.1@) == delivering(self.context(), text@, submit),
    {
        let last = match &self.before_caret {
            Some(before) => fit_to_context(text, Some(before.as_str())),
            None => fit_to_context(text, None),
        };
        let effect = match self.prefs.output_action {
            OutputAction::Clipboard => Effect::ToClipboard(copy_text(last.as_str())),
            OutputAction::Paste => {
                let key = if submit {
                    Some(self.prefs.submit_key)
                } else {
                    None
                };
                Effect::Paste(copy_text(last.as_str()), key)
            },
        };
        (Stage::Delivering { text: last }, effect)
    }

    /// What follows once there is a transcription, added to what came before.
    fn go_on_with(&self, text: &str, before: Vec<Effect>) -> (out: (Stage, Vec<Effect>))
        ensures
            ({
                let (stage, effects) = transcribed(self.context(), text@);
                out.0@ == stage && effects_view(out.1@) == effects_view(before@) + effects
            }),
    {
        let mut effects = before;
        let (kept, submit) = resolve_submit(text, self.prefs.submit_mode, self.keyword.as_str());
        if self.prefs.rewrite {
            let ghost start = effects@;
            effects.push(
                Effect::Emit(
                    Notice { state: "rewriting", title: Some("Ajustando"), message: None },
                ),
            );
            effects.push(Effect::Rewrite(copy_text(kept.as_str())));
            proof {
                assert(effects_view(effects@) =~= effects_view(start) + transcribed(
                    self.context(),
                    text@,
                ).1);
            }
            (Stage::Rewriting { text: kept, submit }, effects)
        } else {
            let ghost start = effects@;
            let (stage, effect) = self.deliver_text(kept.as_str(), submit);
            effects.push(effect);
            proof {
                assert(effects_view(effects@) =~= effects_view(start) + transcribed(
                    self.context(),
                    text@,
                ).1);
            }
            (stage, effects)
        }
    }

    /// What follows the transcription.
    fn on_transcribed(&self, reserve: &str, outcome: Result<String, String>) -> (out: (
        Stage,
        Vec<Effect>,
    ))
        ensures
            (out.0@, effects_view(out.1@)) == delivery_step(
                self.context(),
                StageView::Transcribing { reserve: reserve@ },
                EventView::Transcribed(outcome_view(outcome)),
            ),
    {
        match outcome {
            Ok(answer) => {
                if blank(answer.as_str()) {
                    return Self::hear_nothing(Status::Vazio);
                }
                let text = trimmed(answer.as_str());
                let note = Effect::NoteBackup {
                    status: Status::Transcrito,
                    text: Some(copy_text(text.as_str())),
                    error: None,
                };
                let before = vec![note];
                proof {
                    assert(effects_view(before@) =~= seq![note@]);
                }
                self.go_on_with(text.as_str(), before)
            },
            Err(reason) => {
                let note = Effect::NoteBackup {
                    status: Status::Falhou,
                    text: None,
                    error: Some(copy_text(reason.as_str())),
                };
                if !blank(reserve) {
                    let told = Effect::Emit(
                        Notice {
                            state: "warning",
                            title: Some("Texto parcial"),
                            message: Some(
                                "A transcrição final falhou; este veio do reconhecimento ao vivo.",
                            ),
                        },
                    );
                    let before = vec![note, told];
                    proof {
                        assert(effects_view(before@) =~= seq![note@, told@]);
                    }
                    let text = trimmed(reserve);
                    return self.go_on_with(text.as_str(), before);
                }
                let told = Effect::Emit(
                    Notice {
                        state: "error",
                        title: Some("Transcrição falhou"),
                        message: Some("Tente de novo"),
                    },
                );
                let effects = vec![note, Effect::Reset, told, Effect::Play(Cue::DictationFailure)];
                proof {
                    assert(effects_view(effects@) =~= seq![
                        note@,
                        EffectView::Reset,
                        told@,
                        EffectView::Play(Cue::DictationFailure),
                    ]);
                }
                (Stage::Finished(Err(reason)), effects)
            },
        }
    }

    /// Takes what has happened and tells what to do next.
    pub fn deliver(self, event: Event) -> (next: (Delivery, Vec<Effect>))
        ensures
            next.0.context() == self.context(),
            (next.0.stage@, effects_view(next.1@)) == delivery_step(
                self.context(),
                self.stage@,
                event@,
            ),
    {
        let mut delivery = self;
        let mut stage = Stage::Saving;
        std::mem::swap(&mut stage, &mut delivery.stage);
        let (next, effects): (Stage, Vec<Effect>) = match (stage, event) {
            (Stage::Saving, Event::Saved) => {
                if !delivery.speech {
                    Self::hear_nothing(Status::SemFala)
                } else if delivery.live {
                    let effects = vec![Effect::CloseStream];
                    proof {
                        assert(effects_view(effects@) =~= seq![EffectView::CloseStream]);
                    }
                    (Stage::ClosingStream, effects)
                } else {
                    let effects = vec![Effect::Transcribe];
                    let reserve = String::new();
                    proof {
                        assert(effects_view(effects@) =~= seq![EffectView::Transcribe]);
                        assert(reserve@ =~= Seq::<char>::empty());
                    }
                    (Stage::Transcribing { reserve }, effects)
                }
            },
            (Stage::ClosingStream, Event::StreamClosed { outcome, shown }) => {
                let effects = vec![Effect::Transcribe];
                proof {
                    assert(effects_view(effects@) =~= seq![EffectView::Transcribe]);
                }
                let reserve = match outcome {
                    Ok(text) => text,
                    Err(_) => shown,
                };
                (Stage::Transcribing { reserve }, effects)
            },
            (Stage::Transcribing { reserve }, Event::Transcribed(outcome)) => {
                delivery.on_transcribed(reserve.as_str(), outcome)
            },
            (Stage::Rewriting { text, submit }, Event::Rewritten(result)) => {
                let chosen = rewritten(text.as_str(), result);
                let (next, effect) = delivery.deliver_text(chosen.text.as_str(), submit);
                let effects = vec![effect];
                proof {
                    assert(effects_view(effects@) =~= seq![effect@]);
                }
                (next, effects)
            },
            (Stage::Delivering { text }, Event::Delivered(done)) => {
                if done {
                    let label = match delivery.prefs.output_action {
                        OutputAction::Clipboard => "Copiado",
                        OutputAction::Paste => "Colado",
                    };
                    let told = Effect::Emit(
                        Notice { state: "success", title: Some(label), message: None },
                    );
                    let effects = vec![Effect::Reset, told, Effect::Play(Cue::DictationSuccess)];
                    proof {
                        assert(effects_view(effects@) =~= seq![
                            EffectView::Reset,
                            told@,
                            EffectView::Play(Cue::DictationSuccess),
                        ]);
                    }
                    (Stage::Finished(Ok(text)), effects)
                } else {
                    let saved = Effect::ToClipboard(copy_text(text.as_str()));
                    let effects = vec![Effect::Reset, saved];
                    proof {
                        assert(effects_view(effects@) =~= seq![EffectView::Reset, saved@]);
                    }
                    (Stage::Rescuing { text }, effects)
                }
            },
            (Stage::Rescuing { text }, Event::Rescued(done)) => {
                let notice = if done {
                    Notice {
                        state: "warning",
                        title: Some("Transcrição copiada"),
                        message: Some("Não deu para colar no app ativo."),
                    }
                } else {
                    Notice {
                        state: "error",
                        title: Some("Falha ao entregar o texto"),
                        message: None,
                    }
                };
                let told = Effect::Emit(notice);
                let effects = vec![told, Effect::Play(Cue::DictationFailure)];
                proof {
                    assert(effects_view(effects@) =~= seq![
                        told@,
                        EffectView::Play(Cue::DictationFailure),
                    ]);
                }
                (Stage::Finished(Ok(text)), effects)
            },
            (other, _) => {
                let effects: Vec<Effect> = Vec::new();
                proof {
                    assert(effects_view(effects@) =~= Seq::<EffectView>::empty());
                }
                (other, effects)
            },
        };
        delivery.stage = next;
        (delivery, effects)
    }
}

// --------------------------------------------------- what a delivery promises

/// Where nobody spoke, nothing is sent: the dictation ends with no text, and the
/// saved recording is noted as one without speech.
pub proof fn law_silence_is_not_sent(context: Context)
    requires
        !context.speech,
    ensures
        delivery_step(context, StageView::Saving, EventView::Saved).0 == StageView::Finished(
            Ok(Seq::empty()),
        ),
        !delivery_step(context, StageView::Saving, EventView::Saved).1.contains(
            EffectView::Transcribe,
        ),
        delivery_step(context, StageView::Saving, EventView::Saved).1[0]
            == (EffectView::NoteBackup { status: Status::SemFala, text: None, error: None }),
{
}

/// What was understood is not lost: where the transcription has something in it,
/// or it failed and the live transcription has, the dictation goes on with that.
pub proof fn law_words_go_on(
    context: Context,
    reserve: Seq<char>,
    outcome: Result<Seq<char>, Seq<char>>,
)
    requires
        outcome matches Ok(answer) ==> !is_blank(answer),
        outcome is Err ==> !is_blank(reserve),
    ensures
        ({
            let words = match outcome {
                Ok(answer) => trim(answer),
                Err(_) => trim(reserve),
            };
            delivery_step(
                context,
                StageView::Transcribing { reserve },
                EventView::Transcribed(outcome),
            ).0 == transcribed(context, words).0
        }),
{
}

/// A dictation fails only where the transcription failed and the live one
/// understood nothing; and then the saved recording is noted as failed, with the
/// reason.
pub proof fn law_failure_needs_silence(context: Context, stage: StageView, event: EventView)
    requires
        !(stage is Finished),
        delivery_step(context, stage, event).0 matches StageView::Finished(outcome) && outcome
            is Err,
    ensures
        stage matches StageView::Transcribing { reserve } && is_blank(reserve),
        event matches EventView::Transcribed(outcome) && outcome is Err,
        ({
            let reason = delivery_step(context, stage, event).0->Finished_0->Err_0;
            event == EventView::Transcribed(Err(reason)) && delivery_step(
                context,
                stage,
                event,
            ).1[0] == (EffectView::NoteBackup {
                status: Status::Falhou,
                text: None,
                error: Some(reason),
            })
        }),
{
}

/// A text that could not be rewritten is delivered as it was dictated.
pub proof fn law_rewriting_may_fail(context: Context, draft: Seq<char>, submit: bool)
    ensures
        delivery_step(
            context,
            StageView::Rewriting { draft, submit },
            EventView::Rewritten(None),
        ) == (
            delivering(context, draft, submit).0,
            seq![delivering(context, draft, submit).1],
        ),
{
}

/// A text that could not be delivered goes to the clipboard, and whatever comes of
/// that, it is what the dictation ends with.
pub proof fn law_undelivered_text_is_rescued(context: Context, text: Seq<char>, done: bool)
    ensures
        ({
            let (stage, effects) = delivery_step(
                context,
                StageView::Delivering { text },
                EventView::Delivered(false),
            );
            &&& effects.contains(EffectView::ToClipboard(text))
            &&& delivery_step(context, stage, EventView::Rescued(done)).0 == StageView::Finished(
                Ok(text),
            )
        }),
{
    let (stage, effects) = delivery_step(
        context,
        StageView::Delivering { text },
        EventView::Delivered(false),
    );
    assert(effects[1] == EffectView::ToClipboard(text));
}

/// Whoever chose the clipboard never has anything pasted or sent.
pub proof fn law_clipboard_never_pastes(
    context: Context,
    stage: StageView,
    event: EventView,
    text: Seq<char>,
    key: Option<SubmitKey>,
)
    requires
        context.prefs.output_action == OutputAction::Clipboard,
    ensures
        !delivery_step(context, stage, event).1.contains(EffectView::Paste(text, key)),
{
}

/// How far a delivery is from its end.
pub open spec fn distance(stage: StageView) -> nat {
    match stage {
        StageView::Saving => 6,
        StageView::ClosingStream => 5,
        StageView::Transcribing { .. } => 4,
        StageView::Rewriting { .. } => 3,
        StageView::Delivering { .. } => 2,
        StageView::Rescuing { .. } => 1,
        StageView::Finished(_) => 0,
    }
}

/// Every event that is waited for brings the end nearer, every other one changes
/// nothing and asks for nothing, and the end is the end.
pub proof fn law_deliveries_end(context: Context, stage: StageView, event: EventView)
    ensures
        ({
            let (next, effects) = delivery_step(context, stage, event);
            &&& distance(next) < distance(stage) || (next == stage && effects.len() == 0)
            &&& stage is Finished ==> next == stage && effects.len() == 0
            &&& next is Finished && !(stage is Finished) ==> effects.last() is Play
        }),
{
}

/// The session is back at rest when a delivery is over: it is put there in the
/// step that ends it, or, where the text had to be rescued, in the one before.
pub proof fn law_the_session_comes_to_rest(context: Context, stage: StageView, event: EventView)
    requires
        !(stage is Finished),
        delivery_step(context, stage, event).0 is Finished || delivery_step(
            context,
            stage,
            event,
        ).0 is Rescuing,
    ensures
        delivery_step(context, stage, event).1.contains(EffectView::Reset) || stage is Rescuing,
{
    let effects = delivery_step(context, stage, event).1;
    if !(stage is Rescuing) {
        assert(effects[0] == EffectView::Reset || effects[1] == EffectView::Reset);
    }
}

/// What became of a recording is always noted beside it, first of all: that nobody
/// spoke, or what the transcription brought, or why it failed.
pub proof fn law_every_recording_is_noted(
    context: Context,
    reserve: Seq<char>,
    outcome: Result<Seq<char>, Seq<char>>,
)
    ensures
        ({
            let effects = delivery_step(
                context,
                StageView::Transcribing { reserve },
                EventView::Transcribed(outcome),
            ).1;
            let (status, text, error) = judged(outcome);
            effects.len() > 0 && effects[0] == (EffectView::NoteBackup { status, text, error })
        }),
        !context.speech ==> delivery_step(context, StageView::Saving, EventView::Saved).1[0]
            == (EffectView::NoteBackup { status: Status::SemFala, text: None, error: None }),
{
}

/// Where a delivery is after some events, and what it did on the way. It begins by
/// having the recording saved.
pub open spec fn run(context: Context, events: Seq<EventView>) -> (StageView, Seq<EffectView>)
    decreases events.len(),
{
    if events.len() == 0 {
        (StageView::Saving, seq![EffectView::SaveBackup])
    } else {
        let (stage, effects) = run(context, events.drop_last());
        let (next, more) = delivery_step(context, stage, events.last());
        (next, effects + more)
    }
}

/// How often a text was pasted.
pub open spec fn pastes(effects: Seq<EffectView>) -> nat
    decreases effects.len(),
{
    if effects.len() == 0 {
        0
    } else {
        pastes(effects.drop_last()) + if effects.last() is Paste {
            1nat
        } else {
            0
        }
    }
}

/// How often a recording went to be transcribed.
pub open spec fn transcriptions(effects: Seq<EffectView>) -> nat
    decreases effects.len(),
{
    if effects.len() == 0 {
        0
    } else {
        transcriptions(effects.drop_last()) + if effects.last() is Transcribe {
            1nat
        } else {
            0
        }
    }
}

proof fn lemma_counts_append(a: Seq<EffectView>, b: Seq<EffectView>)
    ensures
        pastes(a + b) == pastes(a) + pastes(b),
        transcriptions(a + b) == transcriptions(a) + transcriptions(b),
    decreases b.len(),
{
    if b.len() == 0 {
        assert(a + b =~= a);
    } else {
        assert((a + b).drop_last() =~= a + b.drop_last());
        lemma_counts_append(a, b.drop_last());
    }
}

/// A step pastes once at most, and only on the way into delivering; it asks for a
/// transcription once at most, and only on the way into transcribing.
proof fn lemma_step_counts(context: Context, stage: StageView, event: EventView)
    ensures
        ({
            let (next, effects) = delivery_step(context, stage, event);
            &&& pastes(effects) <= 1
            &&& pastes(effects) > 0 ==> distance(stage) > 2 && distance(next) == 2
            &&& transcriptions(effects) <= 1
            &&& transcriptions(effects) > 0 ==> distance(stage) > 4 && distance(next) == 4
        }),
{
    reveal_with_fuel(pastes, 5);
    reveal_with_fuel(transcriptions, 5);
    let (next, effects) = delivery_step(context, stage, event);
    if stage is Transcribing && event is Transcribed {
        let reserve = stage->reserve;
        let outcome = event->Transcribed_0;
        let (status, text, error) = judged(outcome);
        let note = EffectView::NoteBackup { status, text, error };
        let words = match outcome {
            Ok(answer) => trim(answer),
            Err(_) => trim(reserve),
        };
        let more = transcribed(context, words).1;
        match outcome {
            Ok(answer) => if !is_blank(answer) {
                assert(effects == seq![note] + more);
                lemma_counts_append(seq![note], more);
            },
            Err(_) => if !is_blank(reserve) {
                let told = effects[1];
                assert(effects =~= seq![note, told] + more);
                lemma_counts_append(seq![note, told], more);
            },
        }
    }
}

/// However the outside world answers, the recording is saved before anything else
/// is done with it, it goes to be transcribed once at most, and what comes of it
/// is pasted once at most.
pub proof fn law_nothing_is_done_twice(context: Context, events: Seq<EventView>)
    ensures
        run(context, events).1.len() > 0,
        run(context, events).1[0] == EffectView::SaveBackup,
        transcriptions(run(context, events).1) <= 1,
        pastes(run(context, events).1) <= 1,
{
    lemma_run_counts(context, events);
}

proof fn lemma_run_counts(context: Context, events: Seq<EventView>)
    ensures
        ({
            let (stage, effects) = run(context, events);
            &&& effects.len() > 0 && effects[0] == EffectView::SaveBackup
            &&& pastes(effects) <= 1 && (distance(stage) > 2 ==> pastes(effects) == 0)
            &&& transcriptions(effects) <= 1 && (distance(stage) > 4 ==> transcriptions(effects)
                == 0)
        }),
    decreases events.len(),
{
    if events.len() == 0 {
        reveal_with_fuel(pastes, 2);
        reveal_with_fuel(transcriptions, 2);
    } else {
        let (stage, effects) = run(context, events.drop_last());
        lemma_run_counts(context, events.drop_last());
        let event = events.last();
        lemma_step_counts(context, stage, event);
        law_deliveries_end(context, stage, event);
        lemma_counts_append(effects, delivery_step(context, stage, event).1);
    }
}

// ------------------------------------------------------ what the user is owed

/// The words that a delivery goes on with, once it has them: those of the
/// transcription or, where that failed, those that were understood live.
pub open spec fn words_heard(context: Context, events: Seq<EventView>) -> Option<Seq<char>>
    decreases events.len(),
{
    if events.len() == 0 {
        None
    } else {
        let front = events.drop_last();
        match (run(context, front).0, events.last()) {
            (StageView::Transcribing { reserve }, EventView::Transcribed(outcome)) => match outcome {
                Ok(answer) => if is_blank(answer) {
                    None
                } else {
                    Some(trim(answer))
                },
                Err(_) => if is_blank(reserve) {
                    None
                } else {
                    Some(trim(reserve))
                },
            },
            _ => words_heard(context, front),
        }
    }
}

/// Do these words ask to be sent?
pub open spec fn asks_to_send(context: Context, words: Seq<char>) -> bool {
    ||| context.prefs.submit_mode == SubmitMode::Auto
    ||| context.prefs.submit_mode == SubmitMode::Keyword && ends_in_keyword(words, context.keyword)
}

/// Is this what sends the words, where they ask for it, and does not, where they do
/// not?
spec fn sends_as_asked(
    context: Context,
    words: Option<Seq<char>>,
    key: Option<SubmitKey>,
) -> bool {
    &&& context.prefs.output_action == OutputAction::Paste
    &&& words is Some
    &&& asks_to_send(context, words->0) ==> key == Some(context.prefs.submit_key)
    &&& !asks_to_send(context, words->0) ==> key is None
}

proof fn lemma_sends_as_asked(context: Context, events: Seq<EventView>)
    ensures
        ({
            let (stage, effects) = run(context, events);
            let words = words_heard(context, events);
            &&& distance(stage) > 3 ==> words is None && pastes(effects) == 0
            &&& stage matches StageView::Rewriting { draft, submit } ==> words is Some && submit
                == asks_to_send(context, words->0)
            &&& forall|i: int|
                0 <= i < effects.len() && (#[trigger] effects[i]) is Paste ==> sends_as_asked(
                    context,
                    words,
                    effects[i]->Paste_1,
                )
        }),
    decreases events.len(),
{
    if events.len() == 0 {
        reveal_with_fuel(pastes, 2);
    } else {
        let front = events.drop_last();
        let event = events.last();
        lemma_sends_as_asked(context, front);
        let (stage, effects) = run(context, front);
        let (next, more) = delivery_step(context, stage, event);
        lemma_step_counts(context, stage, event);
        law_deliveries_end(context, stage, event);
        lemma_counts_append(effects, more);
        lemma_no_paste(effects);
        let all = effects + more;
        let words = words_heard(context, events);
        if stage is Transcribing && event is Transcribed && words is Some {
            law_the_keyword_decides(words->0, context.keyword, context.prefs.submit_mode);
        }
        assert forall|i: int| 0 <= i < all.len() && (#[trigger] all[i]) is Paste implies {
            sends_as_asked(context, words, all[i]->Paste_1)
        } by {
            if i < effects.len() {
                assert(effects[i] == all[i]);
            } else {
                assert(more[i - effects.len()] == all[i]);
            }
        }
    }
}

proof fn lemma_no_paste(effects: Seq<EffectView>)
    ensures
        pastes(effects) == 0 ==> forall|i: int|
            0 <= i < effects.len() ==> !((#[trigger] effects[i]) is Paste),
    decreases effects.len(),
{
    if effects.len() > 0 && pastes(effects) == 0 {
        lemma_no_paste(effects.drop_last());
        assert forall|i: int| 0 <= i < effects.len() implies !((#[trigger] effects[i]) is Paste) by {
            if i < effects.len() - 1 {
                assert(effects.drop_last()[i] == effects[i]);
            }
        }
    }
}

/// A text that is pasted is sent exactly if the words asked for it: always, where
/// that is wanted of every text, and otherwise where a keyword asks and the words
/// end in it. Whether the text was to be rewritten makes no difference, nor does
/// whether that came to anything. It is sent with the key that was chosen.
pub proof fn law_sent_exactly_if_asked(context: Context, events: Seq<EventView>, i: int)
    requires
        0 <= i < run(context, events).1.len(),
        run(context, events).1[i] is Paste,
    ensures
        context.prefs.output_action == OutputAction::Paste,
        words_heard(context, events) is Some,
        run(context, events).1[i]->Paste_1 == if context.prefs.submit_mode == SubmitMode::Auto || (
        context.prefs.submit_mode == SubmitMode::Keyword && ends_in_keyword(
            words_heard(context, events)->0,
            context.keyword,
        )) {
            Some(context.prefs.submit_key)
        } else {
            None
        },
{
    lemma_sends_as_asked(context, events);
}

/// Two deliveries of the same words send alike, whatever else happened in them:
/// with a rewriting or without, and whether it succeeded or not.
pub proof fn law_rewriting_does_not_unsend(
    context: Context,
    other: Context,
    events: Seq<EventView>,
    others: Seq<EventView>,
    i: int,
    j: int,
)
    requires
        other.prefs == (DeliveryPrefs { rewrite: other.prefs.rewrite, ..context.prefs }),
        other.keyword == context.keyword,
        words_heard(context, events) == words_heard(other, others),
        0 <= i < run(context, events).1.len(),
        run(context, events).1[i] is Paste,
        0 <= j < run(other, others).1.len(),
        run(other, others).1[j] is Paste,
    ensures
        run(context, events).1[i]->Paste_1 == run(other, others).1[j]->Paste_1,
{
    law_sent_exactly_if_asked(context, events, i);
    law_sent_exactly_if_asked(other, others, j);
}

/// With nothing known of what stands before the caret, the words are what is handed
/// on: to be rewritten, where that is wanted, and to be delivered otherwise. Where
/// the words end in the keyword that asks for sending, from `at` to `end`, what stood
/// before it is. What comes back rewritten is delivered as it came, and where nothing
/// comes back, what had been handed on is.
pub proof fn law_the_words_arrive(
    context: Context,
    reserve: Seq<char>,
    outcome: Result<Seq<char>, Seq<char>>,
    words: Seq<char>,
    kept: Seq<char>,
    at: int,
    end: int,
    result: Option<Seq<char>>,
)
    requires
        context.before_caret is None,
        outcome matches Ok(answer) ==> !is_blank(answer) && words == trim(answer),
        outcome is Err ==> !is_blank(reserve) && words == trim(reserve),
        context.prefs.submit_mode == SubmitMode::Keyword && ends_in_keyword(words, context.keyword)
            ==> keyword_stands(words, context.keyword, at, end) && kept == trim_end(words.take(at)),
        !(context.prefs.submit_mode == SubmitMode::Keyword && ends_in_keyword(
            words,
            context.keyword,
        )) ==> kept == words,
    ensures
        ({
            let (stage, effects) = delivery_step(
                context,
                StageView::Transcribing { reserve },
                EventView::Transcribed(outcome),
            );
            let (next, more) = delivery_step(context, stage, EventView::Rewritten(result));
            let arrived = match result {
                Some(made) => made,
                None => kept,
            };
            let last = if context.prefs.rewrite {
                more.last()
            } else {
                effects.last()
            };
            &&& context.prefs.rewrite ==> effects.last() == EffectView::Rewrite(kept)
            &&& context.prefs.rewrite ==> next == (StageView::Delivering { text: arrived })
            &&& !context.prefs.rewrite ==> stage == (StageView::Delivering { text: kept })
            &&& context.prefs.output_action == OutputAction::Clipboard ==> last
                == EffectView::ToClipboard(
                if context.prefs.rewrite {
                    arrived
                } else {
                    kept
                },
            )
            &&& context.prefs.output_action == OutputAction::Paste ==> last is Paste
                && last->Paste_0 == if context.prefs.rewrite {
                arrived
            } else {
                kept
            }
        }),
{
    law_the_keyword_decides(words, context.keyword, context.prefs.submit_mode);
}

/// Where something is known of what stands before the caret, what is delivered is
/// fitted to it. It is pasted or put into the clipboard, as was chosen.
pub proof fn law_the_caret_only_fits(context: Context, text: Seq<char>, submit: bool)
    requires
        text.len() > 0,
    ensures
        delivering(context, text, submit).0 == (StageView::Delivering {
            text: fitted(
                text,
                context.before_caret,
                keeps_own_case_of(text),
                char_lower(text[0]),
            ),
        }),
        context.before_caret is None ==> delivering(context, text, submit).0 == (
        StageView::Delivering { text }),
        delivering(context, text, submit).1 is Paste <==> context.prefs.output_action
            == OutputAction::Paste,
        delivering(context, text, submit).1 is ToClipboard <==> context.prefs.output_action
            == OutputAction::Clipboard,
{
}

/// An answer with nothing in it is silence: the dictation ends without a text, that
/// is noted beside the recording, nothing is delivered, and the user is told.
pub proof fn law_an_empty_answer_is_silence(context: Context, reserve: Seq<char>, answer: Seq<char>)
    requires
        is_blank(answer),
    ensures
        ({
            let (stage, effects) = delivery_step(
                context,
                StageView::Transcribing { reserve },
                EventView::Transcribed(Ok(answer)),
            );
            &&& stage == StageView::Finished(Ok(Seq::empty()))
            &&& effects[0] == (EffectView::NoteBackup {
                status: Status::Vazio,
                text: None,
                error: None,
            })
            &&& forall|i: int|
                0 <= i < effects.len() ==> !((#[trigger] effects[i]) is Paste)
                    && !(effects[i] is ToClipboard) && !(effects[i] is Rewrite)
            &&& effects.contains(
                EffectView::Emit(
                    NoticeView {
                        state: "warning"@,
                        title: Some("Nenhuma fala detectada"@),
                        message: None,
                    },
                ),
            )
        }),
{
    let effects = delivery_step(
        context,
        StageView::Transcribing { reserve },
        EventView::Transcribed(Ok(answer)),
    ).1;
    assert(effects[2] is Emit);
}

/// What a delivery ends with is what it delivered: the text that it holds while it
/// delivers is the one that was pasted, or put into the clipboard where that was
/// chosen, and the one that it ends with.
pub proof fn law_ends_with_what_was_delivered(context: Context, events: Seq<EventView>)
    ensures
        run(context, events).0 matches StageView::Delivering { text } ==> {
            let last = run(context, events).1.last();
            match context.prefs.output_action {
                OutputAction::Clipboard => last == EffectView::ToClipboard(text),
                OutputAction::Paste => last is Paste && last->Paste_0 == text,
            }
        },
        run(context, events).0 matches StageView::Rescuing { lost } ==> run(
            context,
            events,
        ).1.last() == EffectView::ToClipboard(lost),
        forall|done: bool| #[trigger]
            delivery_step(
                context,
                run(context, events).0,
                EventView::Rescued(done),
            ).0 matches StageView::Finished(outcome) ==> run(context, events).0 is Finished || (run(
                context,
                events,
            ).0 is Rescuing && outcome == Ok::<Seq<char>, Seq<char>>(
                run(context, events).0->lost,
            )),
        run(context, events).0 matches StageView::Delivering { text } ==> delivery_step(
            context,
            run(context, events).0,
            EventView::Delivered(true),
        ).0 == StageView::Finished(Ok(text)),
    decreases events.len(),
{
    if events.len() > 0 {
        let front = events.drop_last();
        law_ends_with_what_was_delivered(context, front);
        let (stage, effects) = run(context, front);
        let (next, more) = delivery_step(context, stage, events.last());
        if more.len() == 0 {
            assert(effects + more =~= effects);
        } else {
            assert((effects + more).last() == more.last());
        }
    }
}

/// The sounds tell the truth. The sound of success is heard exactly when a text was
/// delivered, and the sound of failure exactly when the delivery ends in any other
/// way. The session is back at rest before either is heard.
pub proof fn law_sounds_tell_the_truth(context: Context, stage: StageView, event: EventView)
    ensures
        ({
            let (next, effects) = delivery_step(context, stage, event);
            let delivered = stage is Delivering && event == EventView::Delivered(true);
            &&& delivered <==> effects.contains(EffectView::Play(Cue::DictationSuccess))
            &&& effects.contains(EffectView::Play(Cue::DictationFailure)) <==> next is Finished
                && !(stage is Finished) && !delivered
            &&& forall|i: int|
                0 <= i < effects.len() ==> ((#[trigger] effects[i]) matches EffectView::Play(cue)
                    ==> cue == Cue::DictationSuccess || cue == Cue::DictationFailure)
        }),
{
    let (next, effects) = delivery_step(context, stage, event);
    let delivered = stage is Delivering && event == EventView::Delivered(true);
    if delivered {
        assert(effects[2] == EffectView::Play(Cue::DictationSuccess));
    }
    if next is Finished && !(stage is Finished) && !delivered {
        assert(effects.last() == EffectView::Play(Cue::DictationFailure));
        assert(effects[effects.len() - 1] == EffectView::Play(Cue::DictationFailure));
    }
}

/// What the window is told fits what happened. It is told of success exactly when
/// the text was delivered, with the word for how; of an error, where the words are
/// lost or the text could not be handed over at all; and it is warned where nobody
/// was heard, where only what was understood live is left, and where the text had to
/// be copied in place of being pasted.
pub proof fn law_the_window_is_told(
    context: Context,
    stage: StageView,
    event: EventView,
    i: int,
    told: NoticeView,
)
    requires
        0 <= i < delivery_step(context, stage, event).1.len(),
        delivery_step(context, stage, event).1[i] == EffectView::Emit(told),
    ensures
        told.state == "success"@ || told.state == "error"@ || told.state == "warning"@ || told.state
            == "rewriting"@,
        told.state == "success"@ <==> stage is Delivering && event == EventView::Delivered(true),
        told.state == "success"@ ==> told.title == Some(
            if context.prefs.output_action == OutputAction::Paste {
                "Colado"@
            } else {
                "Copiado"@
            },
        ),
        told.state == "error"@ <==> (delivery_step(context, stage, event).0 is Finished && (
        delivery_step(context, stage, event).0->Finished_0 is Err || (stage is Rescuing && event
            == EventView::Rescued(false)))),
        told.state == "rewriting"@ ==> context.prefs.rewrite && delivery_step(
            context,
            stage,
            event,
        ).0 is Rewriting,
{
    reveal_strlit("success");
    reveal_strlit("error");
    reveal_strlit("warning");
    reveal_strlit("rewriting");
    assert("success"@.len() == 7 && "error"@.len() == 5 && "warning"@.len() == 7);
    assert("rewriting"@.len() == 9);
    assert("success"@[0] != "warning"@[0]);
    let effects = delivery_step(context, stage, event).1;
    if stage is Transcribing && event is Transcribed {
        let outcome = event->Transcribed_0;
        let words = match outcome {
            Ok(answer) => trim(answer),
            Err(_) => trim(stage->reserve),
        };
        let more = transcribed(context, words).1;
        if (outcome is Ok && !is_blank(outcome->Ok_0)) || (outcome is Err && !is_blank(
            stage->reserve,
        )) {
            let first = effects.len() - more.len();
            if i >= first {
                assert(effects[i] == more[i - first]);
            }
        }
    }
}

/// A recording in which somebody spoke is transcribed. Where the live transcription
/// was running it is ended first, and what it understood is kept at hand: its text
/// where it ended well, and otherwise what it last showed.
pub proof fn law_speech_is_transcribed(
    context: Context,
    closing: Result<Seq<char>, Seq<char>>,
    shown: Seq<char>,
)
    requires
        context.speech,
    ensures
        ({
            let (stage, effects) = delivery_step(context, StageView::Saving, EventView::Saved);
            let (after, more) = delivery_step(
                context,
                stage,
                EventView::StreamClosed { closing, shown },
            );
            let kept = match closing {
                Ok(text) => text,
                Err(_) => shown,
            };
            &&& context.live ==> effects == seq![EffectView::CloseStream] && more == seq![
                EffectView::Transcribe,
            ] && after == (StageView::Transcribing { reserve: kept })
            &&& !context.live ==> effects == seq![EffectView::Transcribe] && stage == (
            StageView::Transcribing { reserve: Seq::empty() })
        }),
{
}

/// Beginning a dictation sounds first, and opens the microphone right after, before
/// anything is shown. The live transcription begins last, and only where it is
/// wanted; its window is shown only where both are.
pub proof fn law_sound_then_microphone(push_to_talk: bool, live: bool, show: bool)
    ensures
        ({
            let steps = start_steps(push_to_talk, live, show);
            &&& steps[0] == StartStep::Play(Cue::DictationStart)
            &&& steps[1] == StartStep::OpenMicrophone
            &&& steps[2] == (StartStep::ShowHud { push_to_talk })
            &&& steps[3] == StartStep::ShowLiveWindow(live && show)
            &&& steps[4] == StartStep::Prewarm
            &&& live <==> steps.contains(StartStep::LiveTranscription)
            &&& live ==> steps.len() == 6 && steps[5] == StartStep::LiveTranscription
            &&& !live ==> steps.len() == 5
        }),
{
    let steps = start_steps(push_to_talk, live, show);
    if live {
        assert(steps[5] == StartStep::LiveTranscription);
    }
}

/// What a delivery asks for is told in full: the text, the key, the status and the
/// reason that the effect holds.
pub proof fn law_effects_are_told_in_full(effect: Effect)
    ensures
        match effect {
            Effect::Paste(text, key) => effect@ is Paste && effect@->Paste_0 == text@
                && effect@->Paste_1 == key,
            Effect::ToClipboard(text) => effect@ is ToClipboard && effect@->ToClipboard_0 == text@,
            Effect::Rewrite(text) => effect@ is Rewrite && effect@->Rewrite_0 == text@,
            Effect::NoteBackup { status, text, error } => effect@ is NoteBackup && effect@->status
                == status && (effect@->text is Some <==> text is Some) && (text matches Some(kept)
                ==> effect@->text == Some(kept@)) && (effect@->error is Some <==> error is Some)
                && (error matches Some(reason) ==> effect@->error == Some(reason@)),
            Effect::Emit(told) => effect@ is Emit && effect@->Emit_0.state == told.state@ && (
            effect@->Emit_0.title is Some <==> told.title is Some) && (told.title matches Some(title)
                ==> effect@->Emit_0.title == Some(title@)) && (effect@->Emit_0.message is Some
                <==> told.message is Some) && (told.message matches Some(message)
                ==> effect@->Emit_0.message == Some(message@)),
            Effect::Play(cue) => effect@ is Play && effect@->Play_0 == cue,
            Effect::SaveBackup => effect@ is SaveBackup,
            Effect::CloseStream => effect@ is CloseStream,
            Effect::Transcribe => effect@ is Transcribe,
            Effect::Reset => effect@ is Reset,
        },
{
}


/// Does the window get told this?
spec fn tells(
    effects: Seq<EffectView>,
    state: Seq<char>,
    title: Seq<char>,
    message: Option<Seq<char>>,
) -> bool {
    effects.contains(EffectView::Emit(NoticeView { state, title: Some(title), message }))
}

proof fn lemma_tells(
    effects: Seq<EffectView>,
    i: int,
    state: Seq<char>,
    title: Seq<char>,
    message: Option<Seq<char>>,
)
    requires
        0 <= i < effects.len(),
        effects[i] == EffectView::Emit(NoticeView { state, title: Some(title), message }),
    ensures
        tells(effects, state, title, message),
        effects.contains(EffectView::Emit(NoticeView { state, title: Some(title), message })),
{
}

/// The user is never left without a word. Whoever is not understood is told so; a
/// text that comes from the live transcription is announced as partial; a rewriting
/// is announced; and a text that could not be delivered is told to be in the
/// clipboard, or to be lost.
pub proof fn law_the_user_is_told(
    context: Context,
    reserve: Seq<char>,
    reason: Seq<char>,
    text: Seq<char>,
    done: bool,
)
    ensures
        ({
            let effects = delivery_step(
                context,
                StageView::Transcribing { reserve },
                EventView::Transcribed(Err(reason)),
            ).1;
            &&& is_blank(reserve) ==> effects.contains(
                EffectView::Emit(
                    NoticeView {
                        state: "error"@,
                        title: Some("Transcrição falhou"@),
                        message: Some("Tente de novo"@),
                    },
                ),
            )
            &&& !is_blank(reserve) ==> effects.contains(
                EffectView::Emit(
                    NoticeView {
                        state: "warning"@,
                        title: Some("Texto parcial"@),
                        message: Some(
                            "A transcrição final falhou; este veio do reconhecimento ao vivo."@,
                        ),
                    },
                ),
            )
            &&& !is_blank(reserve) && context.prefs.rewrite ==> effects.contains(
                EffectView::Emit(
                    NoticeView { state: "rewriting"@, title: Some("Ajustando"@), message: None },
                ),
            )
        }),
        delivery_step(
            context,
            StageView::Rescuing { lost: text },
            EventView::Rescued(done),
        ).1.contains(
            EffectView::Emit(
                if done {
                    NoticeView {
                        state: "warning"@,
                        title: Some("Transcrição copiada"@),
                        message: Some("Não deu para colar no app ativo."@),
                    }
                } else {
                    NoticeView {
                        state: "error"@,
                        title: Some("Falha ao entregar o texto"@),
                        message: None,
                    }
                },
            ),
        ),
        !is_blank(text) && context.prefs.rewrite ==> delivery_step(
            context,
            StageView::Transcribing { reserve },
            EventView::Transcribed(Ok(text)),
        ).1.contains(
            EffectView::Emit(
                NoticeView { state: "rewriting"@, title: Some("Ajustando"@), message: None },
            ),
        ),
{
    let failed = delivery_step(
        context,
        StageView::Transcribing { reserve },
        EventView::Transcribed(Err(reason)),
    ).1;
    if is_blank(reserve) {
        lemma_tells(failed, 2, "error"@, "Transcrição falhou"@, Some("Tente de novo"@));
    } else {
        lemma_tells(
            failed,
            1,
            "warning"@,
            "Texto parcial"@,
            Some("A transcrição final falhou; este veio do reconhecimento ao vivo."@),
        );
        if context.prefs.rewrite {
            lemma_tells(failed, 2, "rewriting"@, "Ajustando"@, None);
        }
    }
    let rescued = delivery_step(
        context,
        StageView::Rescuing { lost: text },
        EventView::Rescued(done),
    ).1;
    assert(rescued[0] is Emit);
    let understood = delivery_step(
        context,
        StageView::Transcribing { reserve },
        EventView::Transcribed(Ok(text)),
    ).1;
    if !is_blank(text) && context.prefs.rewrite {
        lemma_tells(understood, 1, "rewriting"@, "Ajustando"@, None);
    }
}

} // verus!
