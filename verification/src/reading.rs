//! Reading aloud.
//!
//! The service answers with a whole file, and making it takes longer than
//! speaking it. So the text is cut into chunks that are made one after the
//! other, and the player waits for a lead before it starts. Stopping a reading,
//! or starting another, raises a number that every reading carries: whatever is
//! still on its way for an older one finds out by it, and is dropped.

use vstd::prelude::*;

use crate::api::{reading_chunks, split_text};
use crate::float::Single;
use crate::hud::{HudRole, HudShape};
use crate::outside::{base64_standard, encode_base64};
use crate::sounds::Cue;
use crate::text::{
    blank, copy_text, is_blank, same_text, slice_chars, texts, to_chars, to_text,
};

verus! {

#[derive(Debug, Clone, Copy, PartialEq, Eq, Structural)]
pub enum ReadingState {
    Idle,
    Generating,
    Playing,
    Paused,
    Complete,
    Failed,
}

impl ReadingState {
    /// The name under which the state travels.
    pub open spec fn called(self) -> Seq<char> {
        match self {
            ReadingState::Idle => "idle"@,
            ReadingState::Generating => "generating"@,
            ReadingState::Playing => "playing"@,
            ReadingState::Paused => "paused"@,
            ReadingState::Complete => "complete"@,
            ReadingState::Failed => "failed"@,
        }
    }

    /// The name under which the state travels.
    pub fn name(self) -> (name: &'static str)
        ensures
            name@ == self.called(),
            name@ == match self {
                ReadingState::Idle => "idle"@,
                ReadingState::Generating => "generating"@,
                ReadingState::Playing => "playing"@,
                ReadingState::Paused => "paused"@,
                ReadingState::Complete => "complete"@,
                ReadingState::Failed => "failed"@,
            },
    {
        match self {
            ReadingState::Idle => "idle",
            ReadingState::Generating => "generating",
            ReadingState::Playing => "playing",
            ReadingState::Paused => "paused",
            ReadingState::Complete => "complete",
            ReadingState::Failed => "failed",
        }
    }

    /// The state of that name.
    pub fn from_name(name: &str) -> (state: Option<ReadingState>)
        ensures
            match state {
                Some(found) => found.called() == name@,
                None => forall|other: ReadingState| other.called() != name@,
            },
    {
        let states = [
            ReadingState::Generating,
            ReadingState::Playing,
            ReadingState::Paused,
            ReadingState::Complete,
            ReadingState::Failed,
            ReadingState::Idle,
        ];
        let mut i: usize = 0;
        while i < 6
            invariant
                i <= 6,
                states@ == seq![
                    ReadingState::Generating,
                    ReadingState::Playing,
                    ReadingState::Paused,
                    ReadingState::Complete,
                    ReadingState::Failed,
                    ReadingState::Idle,
                ],
                forall|k: int| 0 <= k < i ==> (#[trigger] states@[k]).called() != name@,
            decreases 6 - i,
        {
            if same_text(states[i].name(), name) {
                return Some(states[i]);
            }
            i = i + 1;
        }
        proof {
            assert(states@[0].called() != name@);
            assert(states@[1].called() != name@);
            assert(states@[2].called() != name@);
            assert(states@[3].called() != name@);
            assert(states@[4].called() != name@);
            assert(states@[5].called() != name@);
        }
        None
    }
}

/// A chunk of text and, once it is made, its audio.
#[derive(Debug)]
pub struct Segment {
    pub text: String,
    pub audio: Option<Vec<u8>>,
    /// How long it is, known only once it is made.
    pub seconds: Single,
}

/// A chunk of text and its audio.
pub ghost struct SegmentView {
    pub text: Seq<char>,
    pub audio: Option<Seq<u8>>,
    pub seconds: Single,
}

impl View for Segment {
    type V = SegmentView;

    open spec fn view(&self) -> SegmentView {
        SegmentView {
            text: self.text@,
            audio: match self.audio {
                Some(bytes) => Some(bytes@),
                None => None,
            },
            seconds: self.seconds,
        }
    }
}

/// How long a chunk took to make, and how long it is.
#[derive(Debug, Clone, Copy, PartialEq, Eq, Structural)]
pub struct Sample {
    pub spent: Single,
    pub audio: Single,
}

/// The chunks of the current reading and how far it has come.
#[derive(Debug)]
pub struct Queue {
    pub segments: Vec<Segment>,
    /// The chunk that is playing.
    pub cursor: usize,
    pub state: ReadingState,
    /// The number of the current reading.
    pub generation: u64,
    /// What was measured of the chunks made for this reading.
    pub samples: Vec<Sample>,
}

/// What a queue holds.
pub ghost struct QueueView {
    pub segments: Seq<SegmentView>,
    pub cursor: usize,
    pub state: ReadingState,
    pub generation: u64,
    pub samples: Seq<Sample>,
}

/// What a list of chunks holds.
pub open spec fn segments_view(segments: Seq<Segment>) -> Seq<SegmentView> {
    segments.map_values(|segment: Segment| segment@)
}

impl View for Queue {
    type V = QueueView;

    open spec fn view(&self) -> QueueView {
        QueueView {
            segments: segments_view(self.segments@),
            cursor: self.cursor,
            state: self.state,
            generation: self.generation,
            samples: self.samples@,
        }
    }
}

/// One reading, from its first chunk to its last: its number, the chunk it is at,
/// and whether it has begun to play.
#[derive(Debug, Clone, Copy, PartialEq, Eq)]
pub struct Session {
    pub generation: u64,
    pub index: usize,
    pub playback_started: bool,
}

impl QueueView {
    /// The queue that a new reading starts from.
    pub open spec fn begun(self) -> QueueView {
        QueueView {
            segments: Seq::empty(),
            cursor: 0,
            state: ReadingState::Generating,
            generation: (self.generation + 1) as u64,
            samples: Seq::empty(),
        }
    }

    /// The queue after the reading was stopped.
    pub open spec fn stopped(self) -> QueueView {
        QueueView {
            segments: Seq::empty(),
            cursor: 0,
            state: ReadingState::Idle,
            generation: (self.generation + 1) as u64,
            ..self
        }
    }

    /// Is this still the reading that the session belongs to?
    pub open spec fn serves(self, session: Session) -> bool {
        self.generation == session.generation
    }

    /// The queue after a request to pause, which only what is playing heeds.
    pub open spec fn paused(self) -> QueueView {
        if self.state == ReadingState::Playing {
            QueueView { state: ReadingState::Paused, ..self }
        } else {
            self
        }
    }

    /// The queue after a request to resume, which only what is paused heeds.
    pub open spec fn resumed(self) -> QueueView {
        if self.state == ReadingState::Paused {
            QueueView { state: ReadingState::Playing, ..self }
        } else {
            self
        }
    }

    /// The queue after the player told its state: stopped stays stopped.
    pub open spec fn synced(self, state: ReadingState) -> QueueView {
        if self.state == ReadingState::Idle {
            self
        } else {
            QueueView { state, ..self }
        }
    }

    /// Were the first `count` chunks made?
    pub open spec fn made(self, count: int) -> bool {
        forall|i: int| 0 <= i < count ==> (#[trigger] self.segments[i]).audio is Some
    }

    /// The queue with the chunks of a reading, none of them made.
    pub open spec fn loaded(self, chunks: Seq<Seq<char>>) -> QueueView {
        QueueView {
            segments: chunks.map_values(
                |chunk: Seq<char>|
                    SegmentView { text: chunk, audio: None, seconds: Single { bits: 0 } },
            ),
            ..self
        }
    }

    /// The queue once the chunk of a session is made. A chunk that came from a
    /// cache tells nothing of how fast chunks are made, and is not measured.
    pub open spec fn stored(
        self,
        session: Session,
        audio: Seq<u8>,
        seconds: Single,
        spent: Single,
        cached: bool,
    ) -> QueueView {
        QueueView {
            segments: if session.index < self.segments.len() {
                self.segments.update(
                    session.index as int,
                    SegmentView {
                        text: self.segments[session.index as int].text,
                        audio: Some(audio),
                        seconds,
                    },
                )
            } else {
                self.segments
            },
            samples: if cached {
                self.samples
            } else {
                self.samples.push(Sample { spent, audio: seconds })
            },
            ..self
        }
    }

    /// Does the player start after the chunk of a session? It does once, when
    /// enough is ready, or when there is no more to wait for.
    pub open spec fn starts(self, session: Session, buffered: Single, required: Single) -> bool {
        !session.playback_started && (buffered.at_least(required) || session.index + 1
            >= self.segments.len())
    }

    /// How long the chunks are that are made and not yet played, in order.
    pub open spec fn ready_ahead(self) -> Seq<Single> {
        ready_from(self.segments, self.cursor as int)
    }
}

/// How long the chunks are that are made, from `from` on.
pub open spec fn ready_from(segments: Seq<SegmentView>, from: int) -> Seq<Single>
    decreases segments.len(),
{
    if segments.len() == 0 || segments.len() <= from {
        Seq::empty()
    } else if segments.last().audio is Some {
        ready_from(segments.drop_last(), from).push(segments.last().seconds)
    } else {
        ready_from(segments.drop_last(), from)
    }
}

/// How many characters the chunks have, from `from` on.
pub open spec fn chars_from(segments: Seq<SegmentView>, from: int) -> nat
    decreases segments.len(),
{
    if segments.len() == 0 || segments.len() <= from {
        0
    } else {
        chars_from(segments.drop_last(), from) + segments.last().text.len()
    }
}

/// What to do next for a reading.
#[derive(Debug)]
pub enum Next {
    /// The reading is no longer the current one.
    Discarded,
    /// This text is to be made into audio.
    Synthesize(String),
    /// Every chunk was made.
    Finished,
}

/// What follows when a chunk was made.
#[derive(Debug, Clone, Copy, PartialEq, Eq, Structural)]
pub struct Advance {
    /// The player starts now.
    pub start: bool,
    /// There is another chunk to make.
    pub more: bool,
}

/// What a chunk is handed to the player as.
#[derive(Debug)]
pub struct ChunkMessage {
    pub index: usize,
    pub total: usize,
    pub text: String,
    /// The audio, as an address that holds it.
    pub audio: String,
}

/// What the rest of the app has to do.
#[derive(Debug, Clone, Copy, PartialEq, Eq, Structural)]
pub enum Effect {
    /// The window is hidden, if it plays that part.
    HideHud(HudRole),
    /// The windows are told the state.
    Emit(ReadingState),
    /// A sound is played.
    Play(Cue),
}

/// What a reading does before there is any text to cut, in this order.
#[derive(Debug, Clone, Copy, PartialEq, Eq, Structural)]
pub enum OpeningStep {
    Emit(ReadingState),
    /// The floating window takes this shape.
    Shape(HudShape),
    /// The floating window is shown.
    Reveal,
    /// The window of the text is brought to the front.
    RaiseReader,
    /// The service prepares the text.
    Prepare { normalize: bool, narrate_tables: bool },
}

/// The preferences that a reading looks at.
#[derive(Debug, Clone, Copy, PartialEq, Eq, Structural)]
pub struct ReadingPrefs {
    pub open_reader_on_read: bool,
    pub reading_captions: bool,
    pub normalize_before_reading: bool,
    pub narrate_tables: bool,
}

/// The steps that open a reading. The state is told before the window appears,
/// so that it does not come up with what it last showed; a text that was already
/// prepared is not prepared again.
pub open spec fn opening_steps(prefs: ReadingPrefs, already_prepared: bool) -> Seq<OpeningStep> {
    let shown = seq![
        OpeningStep::Emit(ReadingState::Generating),
        OpeningStep::Shape(HudShape::reading_shape(prefs.reading_captions)),
        OpeningStep::Reveal,
    ];
    let raised = if prefs.open_reader_on_read {
        shown.push(OpeningStep::RaiseReader)
    } else {
        shown
    };
    if already_prepared {
        raised
    } else {
        raised.push(
            OpeningStep::Prepare {
                normalize: prefs.normalize_before_reading,
                narrate_tables: prefs.narrate_tables,
            },
        )
    }
}

/// What became of the text of a reading.
#[derive(Debug)]
pub enum Loaded {
    /// The reading is no longer the current one.
    Discarded,
    /// There is nothing to read in it.
    Nothing,
    /// It is read in these chunks.
    Plan(Vec<String>),
}

/// How a reading that failed is told of: a sound, then the state with the reason.
#[derive(Debug)]
pub struct FailureNotice {
    pub cue: Cue,
    pub state: ReadingState,
    pub message: String,
}

/// The longest reason that is shown.
pub const LIMITE_DO_MOTIVO: usize = 140;

/// The text, cut to the limit with an ellipsis where it is longer.
pub open spec fn shortened(text: Seq<char>) -> Seq<char> {
    if text.len() <= LIMITE_DO_MOTIVO {
        text
    } else {
        text.take(LIMITE_DO_MOTIVO - 1).push('…')
    }
}

/// Flattens a chain of errors, outermost first, into a sentence that fits on the
/// screen: the deepest cause says what happened.
pub fn motivo_legivel(causas: &Vec<String>) -> (motivo: String)
    requires
        causas@.len() > 0,
    ensures
        motivo@ == shortened(causas@.last()@),
        motivo@.len() <= 140,
        causas@.last()@.len() <= 140 ==> motivo@ == causas@.last()@,
        causas@.last()@.len() > 140 ==> motivo@ == causas@.last()@.subrange(0, 139).push('…'),
{
    let texto = to_chars(causas[causas.len() - 1].as_str());
    proof {
        if texto@.len() > 140 {
            assert(texto@.take(139) =~= texto@.subrange(0, 139));
        }
    }
    if texto.len() <= LIMITE_DO_MOTIVO {
        return to_text(texto.as_slice());
    }
    let mut curto = slice_chars(texto.as_slice(), 0, LIMITE_DO_MOTIVO - 1);
    proof {
        assert(curto@ =~= texto@.take(LIMITE_DO_MOTIVO - 1));
    }
    curto.push('…');
    to_text(curto.as_slice())
}

/// Is there enough audio behind a measurement to trust it? Half a second is.
pub fn enough_sample(audio_seconds: Single) -> (enough: bool)
    ensures
        enough == !audio_seconds.below(Single { bits: 0x3f00_0000 }),
        audio_seconds.bits < 0x8000_0000 ==> (enough <==> audio_seconds.bits >= 0x3f00_0000),
{
    !audio_seconds.less(Single { bits: 0x3f00_0000 })
}

/// The address that holds an audio file in itself, given its bytes in base64.
pub fn data_url(encoded: &str) -> (url: String)
    ensures
        url@ == "data:audio/mpeg;base64,"@ + encoded@,
{
    let mut url = copy_text("data:audio/mpeg;base64,");
    url.append(encoded);
    url
}

proof fn lemma_segments_push(segments: Seq<Segment>, segment: Segment)
    ensures
        segments_view(segments.push(segment)) == segments_view(segments).push(segment@),
{
    assert(segments_view(segments.push(segment)) =~= segments_view(segments).push(segment@));
}

impl Queue {
    /// Nothing to read.
    pub fn new() -> (queue: Queue)
        ensures
            queue@ == (QueueView {
                segments: Seq::empty(),
                cursor: 0,
                state: ReadingState::Idle,
                generation: 0,
                samples: Seq::empty(),
            }),
    {
        let queue = Queue {
            segments: Vec::new(),
            cursor: 0,
            state: ReadingState::Idle,
            generation: 0,
            samples: Vec::new(),
        };
        proof {
            assert(queue@.segments =~= Seq::<SegmentView>::empty());
            assert(queue@.samples =~= Seq::<Sample>::empty());
        }
        queue
    }

    pub fn state(&self) -> (state: ReadingState)
        ensures
            state == self@.state,
    {
        self.state
    }

    /// How long each chunk is that was made and lies ahead; together they are the
    /// seconds that can be played before the next chunk has to be there.
    pub fn buffered(&self) -> (seconds: Vec<Single>)
        ensures
            seconds@ == self@.ready_ahead(),
    {
        let ghost view = self@.segments;
        let ghost from = self.cursor as int;
        let mut seconds: Vec<Single> = Vec::new();
        let mut i: usize = 0;
        while i < self.segments.len()
            invariant
                i <= self.segments.len(),
                view == segments_view(self.segments@),
                from == self.cursor,
                seconds@ == ready_from(view.take(i as int), from),
            decreases self.segments.len() - i,
        {
            proof {
                assert(view.take(i + 1).drop_last() =~= view.take(i as int));
                if i < from {
                    lemma_nothing_behind(view.take(i as int), from);
                }
            }
            if i >= self.cursor && self.segments[i].audio.is_some() {
                seconds.push(self.segments[i].seconds);
            }
            i = i + 1;
        }
        proof {
            assert(view.take(view.len() as int) =~= view);
        }
        seconds
    }

    /// How many characters are still to be played; the time that they take is
    /// estimated from it.
    pub fn remaining_chars(&self) -> (count: u128)
        ensures
            count == chars_from(self@.segments, self.cursor as int),
    {
        let ghost view = self@.segments;
        let ghost from = self.cursor as int;
        let mut count: u128 = 0;
        let mut i: usize = 0;
        while i < self.segments.len()
            invariant
                i <= self.segments.len(),
                view == segments_view(self.segments@),
                from == self.cursor,
                count == chars_from(view.take(i as int), from),
                count <= i * 0xffff_ffff_ffff_ffff,
            decreases self.segments.len() - i,
        {
            proof {
                assert(view.take(i + 1).drop_last() =~= view.take(i as int));
                if i < from {
                    lemma_nothing_behind(view.take(i as int), from);
                }
            }
            if i >= self.cursor {
                let chars = to_chars(self.segments[i].text.as_str());
                let many: usize = chars.len();
                count = count + many as u128;
            }
            i = i + 1;
        }
        proof {
            assert(view.take(view.len() as int) =~= view);
        }
        count
    }
}

/// Nothing that lies behind the cursor counts.
proof fn lemma_nothing_behind(segments: Seq<SegmentView>, from: int)
    requires
        segments.len() <= from,
    ensures
        ready_from(segments, from) == Seq::<Single>::empty(),
        chars_from(segments, from) == 0,
{
}

/// The reading: its queue, and what may be done to it.
#[derive(Debug)]
pub struct Reader {
    pub queue: Queue,
}

impl Reader {
    /// Nothing to read.
    pub fn new() -> (reader: Reader)
        ensures
            reader.queue@ == (QueueView {
                segments: Seq::empty(),
                cursor: 0,
                state: ReadingState::Idle,
                generation: 0,
                samples: Seq::empty(),
            }),
    {
        Reader { queue: Queue::new() }
    }

    pub fn state(&self) -> (state: ReadingState)
        ensures
            state == self.queue@.state,
    {
        self.queue.state()
    }

    /// Stops what is playing and forgets the queue. Whatever is still being made
    /// belongs from now on to an old reading.
    pub fn stop(&mut self) -> (effects: Vec<Effect>)
        requires
            old(self).queue.generation < u64::MAX,
        ensures
            final(self).queue@ == old(self).queue@.stopped(),
            final(self).queue.state == ReadingState::Idle,
            final(self).queue.generation == old(self).queue.generation + 1,
            final(self).queue.segments@.len() == 0 && final(self).queue.cursor == 0,
            final(self).queue.samples@ == old(self).queue.samples@,
            effects@ == seq![
                Effect::HideHud(HudRole::Reading),
                Effect::Emit(ReadingState::Idle),
            ],
    {
        self.queue.generation = self.queue.generation + 1;
        self.queue.segments = Vec::new();
        self.queue.cursor = 0;
        self.queue.state = ReadingState::Idle;
        proof {
            assert(self.queue@.segments =~= Seq::<SegmentView>::empty());
        }
        vec![Effect::HideHud(HudRole::Reading), Effect::Emit(ReadingState::Idle)]
    }

    /// Pauses what is playing; otherwise nothing happens.
    pub fn pause(&mut self) -> (effects: Vec<Effect>)
        ensures
            final(self).queue@ == old(self).queue@.paused(),
            final(self).queue.state == if old(self).queue.state == ReadingState::Playing {
                ReadingState::Paused
            } else {
                old(self).queue.state
            },
            final(self).queue.segments@ == old(self).queue.segments@,
            final(self).queue.cursor == old(self).queue.cursor,
            final(self).queue.generation == old(self).queue.generation,
            final(self).queue.samples@ == old(self).queue.samples@,
            effects@ == if old(self).queue@.state == ReadingState::Playing {
                seq![Effect::Play(Cue::SpeakPause), Effect::Emit(ReadingState::Paused)]
            } else {
                Seq::<Effect>::empty()
            },
    {
        if self.queue.state != ReadingState::Playing {
            return Vec::new();
        }
        self.queue.state = ReadingState::Paused;
        vec![Effect::Play(Cue::SpeakPause), Effect::Emit(ReadingState::Paused)]
    }

    /// Resumes what is paused; otherwise nothing happens.
    pub fn resume(&mut self) -> (effects: Vec<Effect>)
        ensures
            final(self).queue@ == old(self).queue@.resumed(),
            final(self).queue.state == if old(self).queue.state == ReadingState::Paused {
                ReadingState::Playing
            } else {
                old(self).queue.state
            },
            final(self).queue.segments@ == old(self).queue.segments@,
            final(self).queue.cursor == old(self).queue.cursor,
            final(self).queue.generation == old(self).queue.generation,
            final(self).queue.samples@ == old(self).queue.samples@,
            effects@ == if old(self).queue@.state == ReadingState::Paused {
                seq![Effect::Emit(ReadingState::Playing)]
            } else {
                Seq::<Effect>::empty()
            },
    {
        if self.queue.state != ReadingState::Paused {
            return Vec::new();
        }
        self.queue.state = ReadingState::Playing;
        vec![Effect::Emit(ReadingState::Playing)]
    }

    /// The text that is read: the prepared one, unless there is none or nothing is
    /// left of it. Losing the preparation is no reason to lose the reading.
    pub fn prepare(text: &str, prepared: Option<String>) -> (out: String)
        ensures
            out@ == match prepared {
                Some(ready) => if is_blank(ready@) {
                    text@
                } else {
                    ready@
                },
                None => text@,
            },
    {
        match prepared {
            Some(ready) => {
                if blank(ready.as_str()) {
                    copy_text(text)
                } else {
                    ready
                }
            },
            None => copy_text(text),
        }
    }

    fn speak_inner(&mut self, prefs: ReadingPrefs, already_prepared: bool) -> (opening: (
        Session,
        Vec<OpeningStep>,
    ))
        requires
            old(self).queue.generation < u64::MAX,
        ensures
            final(self).queue@ == old(self).queue@.begun(),
            final(self).queue.state == ReadingState::Generating,
            final(self).queue.generation == old(self).queue.generation + 1,
            final(self).queue.segments@.len() == 0 && final(self).queue.cursor == 0,
            final(self).queue.samples@.len() == 0,
            opening.0 == (Session {
                generation: final(self).queue.generation,
                index: 0,
                playback_started: false,
            }),
            opening.1@ == opening_steps(prefs, already_prepared),
    {
        let generation: u64 = self.queue.generation + 1;
        self.queue = Queue {
            segments: Vec::new(),
            cursor: 0,
            state: ReadingState::Generating,
            generation,
            samples: Vec::new(),
        };
        proof {
            assert(self.queue@.segments =~= Seq::<SegmentView>::empty());
            assert(self.queue@.samples =~= Seq::<Sample>::empty());
        }
        let mut steps: Vec<OpeningStep> = vec![
            OpeningStep::Emit(ReadingState::Generating),
            OpeningStep::Shape(HudShape::of_reading(prefs.reading_captions)),
            OpeningStep::Reveal,
        ];
        if prefs.open_reader_on_read {
            steps.push(OpeningStep::RaiseReader);
        }
        if !already_prepared {
            steps.push(
                OpeningStep::Prepare {
                    normalize: prefs.normalize_before_reading,
                    narrate_tables: prefs.narrate_tables,
                },
            );
        }
        proof {
            assert(steps@ =~= opening_steps(prefs, already_prepared));
        }
        (Session { generation, index: 0, playback_started: false }, steps)
    }

    /// Begins a reading of a text that is still to be prepared. The number of the
    /// reading rises before any work, so that stopping during the preparation
    /// drops this one.
    pub fn speak(&mut self, prefs: ReadingPrefs) -> (opening: (Session, Vec<OpeningStep>))
        requires
            old(self).queue.generation < u64::MAX,
        ensures
            final(self).queue@ == old(self).queue@.begun(),
            final(self).queue.state == ReadingState::Generating,
            final(self).queue.generation == old(self).queue.generation + 1,
            final(self).queue.segments@.len() == 0 && final(self).queue.cursor == 0,
            final(self).queue.samples@.len() == 0,
            opening.0 == (Session {
                generation: final(self).queue.generation,
                index: 0,
                playback_started: false,
            }),
            opening.1@ == opening_steps(prefs, false),
    {
        self.speak_inner(prefs, false)
    }

    /// Like `speak`, for a text that was already prepared.
    pub fn speak_prepared(&mut self, prefs: ReadingPrefs) -> (opening: (Session, Vec<OpeningStep>))
        requires
            old(self).queue.generation < u64::MAX,
        ensures
            final(self).queue@ == old(self).queue@.begun(),
            final(self).queue.state == ReadingState::Generating,
            final(self).queue.generation == old(self).queue.generation + 1,
            final(self).queue.segments@.len() == 0 && final(self).queue.cursor == 0,
            final(self).queue.samples@.len() == 0,
            opening.0 == (Session {
                generation: final(self).queue.generation,
                index: 0,
                playback_started: false,
            }),
            opening.1@ == opening_steps(prefs, true),
    {
        self.speak_inner(prefs, true)
    }

    /// Cuts the text of a reading and queues its chunks. The same list goes to
    /// the windows and to the extension.
    pub fn load(&mut self, session: &Session, text: &str) -> (loaded: Loaded)
        ensures
            loaded is Discarded <==> old(self).queue.generation != session.generation,
            final(self).queue.generation == old(self).queue.generation,
            final(self).queue.state == old(self).queue.state,
            final(self).queue.cursor == old(self).queue.cursor,
            final(self).queue.samples@ == old(self).queue.samples@,
            loaded matches Loaded::Plan(chunks) ==> {
                &&& final(self).queue.segments@.len() == chunks@.len()
                &&& forall|i: int|
                    0 <= i < chunks@.len() ==> (#[trigger] final(self).queue.segments@[i]).text@
                        == chunks@[i]@ && final(self).queue.segments@[i].audio is None
                        && final(self).queue.segments@[i].seconds.bits == 0
            },
            match loaded {
                Loaded::Discarded => !old(self).queue@.serves(*session) && final(self).queue@
                    == old(self).queue@,
                Loaded::Nothing => old(self).queue@.serves(*session) && reading_chunks(
                    text@,
                ).len() == 0 && final(self).queue@ == old(self).queue@,
                Loaded::Plan(chunks) => {
                    &&& old(self).queue@.serves(*session)
                    &&& reading_chunks(text@).len() > 0
                    &&& texts(chunks@) == reading_chunks(text@)
                    &&& final(self).queue@ == old(self).queue@.loaded(reading_chunks(text@))
                },
            },
    {
        if self.queue.generation != session.generation {
            return Loaded::Discarded;
        }
        let chunks = split_text(text);
        if chunks.len() == 0 {
            return Loaded::Nothing;
        }
        let ghost before = self.queue@;
        let mut segments: Vec<Segment> = Vec::new();
        let mut i: usize = 0;
        while i < chunks.len()
            invariant
                i <= chunks.len(),
                segments_view(segments@) == before.loaded(
                    texts(chunks@).take(i as int),
                ).segments,
            decreases chunks.len() - i,
        {
            let segment = Segment {
                text: copy_text(chunks[i].as_str()),
                audio: None,
                seconds: Single { bits: 0 },
            };
            proof {
                let all = texts(chunks@);
                lemma_segments_push(segments@, segment);
                assert(all.take(i + 1) =~= all.take(i as int).push(all[i as int]));
                assert(before.loaded(all.take(i + 1)).segments =~= before.loaded(
                    all.take(i as int),
                ).segments.push(segment@));
            }
            segments.push(segment);
            i = i + 1;
        }
        proof {
            assert(texts(chunks@).take(chunks@.len() as int) =~= texts(chunks@));
        }
        self.queue.segments = segments;
        proof {
            assert forall|k: int| 0 <= k < chunks@.len() implies (
            #[trigger] self.queue.segments@[k]).text@ == chunks@[k]@
                && self.queue.segments@[k].audio is None && self.queue.segments@[k].seconds.bits
                == 0 by {
                assert(self.queue@.segments[k] == self.queue.segments@[k]@);
                assert(texts(chunks@)[k] == chunks@[k]@);
            }
        }
        Loaded::Plan(chunks)
    }

    /// What to do next for a reading.
    pub fn next_chunk(&self, session: &Session) -> (next: Next)
        ensures
            next is Discarded <==> self.queue.generation != session.generation,
            next matches Next::Synthesize(text) ==> session.index < self.queue.segments@.len()
                && text@ == self.queue.segments@[session.index as int].text@,
            next is Finished ==> session.index >= self.queue.segments@.len(),
            match next {
                Next::Discarded => !self.queue@.serves(*session),
                Next::Synthesize(text) => self.queue@.serves(*session) && session.index
                    < self.queue@.segments.len() && text@
                    == self.queue@.segments[session.index as int].text,
                Next::Finished => self.queue@.serves(*session) && session.index
                    >= self.queue@.segments.len(),
            },
    {
        if self.queue.generation != session.generation {
            return Next::Discarded;
        }
        if session.index < self.queue.segments.len() {
            Next::Synthesize(copy_text(self.queue.segments[session.index].text.as_str()))
        } else {
            Next::Finished
        }
    }

    /// Takes the audio of the chunk that a reading is at, how long it is, how
    /// long it took and whether it came from a cache. What comes for a reading
    /// that is no longer the current one is dropped.
    pub fn store(
        &mut self,
        session: &Session,
        audio: Vec<u8>,
        seconds: Single,
        spent: Single,
        cached: bool,
    ) -> (current: bool)
        ensures
            current == old(self).queue@.serves(*session),
            current <==> old(self).queue.generation == session.generation,
            final(self).queue.generation == old(self).queue.generation,
            final(self).queue.state == old(self).queue.state,
            final(self).queue.cursor == old(self).queue.cursor,
            final(self).queue.segments@.len() == old(self).queue.segments@.len(),
            forall|i: int|
                0 <= i < old(self).queue.segments@.len() && !(current && i == session.index)
                    ==> #[trigger] final(self).queue.segments@[i] == old(self).queue.segments@[i],
            current && session.index < old(self).queue.segments@.len() ==> {
                let made = final(self).queue.segments@[session.index as int];
                &&& made.text@ == old(self).queue.segments@[session.index as int].text@
                &&& made.audio matches Some(bytes) && bytes@ == audio@
                &&& made.seconds == seconds
            },
            final(self).queue.samples@ == if current && !cached {
                old(self).queue.samples@.push(Sample { spent, audio: seconds })
            } else {
                old(self).queue.samples@
            },
            current ==> final(self).queue@ == old(self).queue@.stored(
                *session,
                audio@,
                seconds,
                spent,
                cached,
            ),
            !current ==> final(self).queue@ == old(self).queue@,
    {
        if self.queue.generation != session.generation {
            return false;
        }
        let ghost before = self.queue@;
        let index: usize = session.index;
        if index < self.queue.segments.len() {
            let ghost list = self.queue.segments@;
            let segment = Segment {
                text: copy_text(self.queue.segments[index].text.as_str()),
                audio: Some(audio),
                seconds,
            };
            self.queue.segments.set(index, segment);
            proof {
                assert(segments_view(self.queue.segments@) =~= segments_view(list).update(
                    index as int,
                    segment@,
                ));
            }
        }
        if !cached {
            self.queue.samples.push(Sample { spent, audio: seconds });
        }
        true
    }

    /// Moves a reading past the chunk that was just made, and decides whether the
    /// player starts: once, when what is ready reaches the lead that is required,
    /// or when this was the last chunk.
    pub fn advance(&mut self, session: &mut Session, buffered: Single, required: Single) -> (step:
        Advance)
        requires
            old(self).queue@.serves(*old(session)),
            old(session).index < old(self).queue@.segments.len(),
        ensures
            step.start == old(self).queue@.starts(*old(session), buffered, required),
            step.start <==> !old(session).playback_started && (buffered.at_least(required) || old(
                session,
            ).index + 1 == old(self).queue.segments@.len()),
            final(session).index == old(session).index + 1,
            final(session).generation == old(session).generation,
            final(session).playback_started == (old(session).playback_started || step.start),
            step.more <==> old(session).index + 1 < old(self).queue.segments@.len(),
            final(self).queue.state == if step.start {
                ReadingState::Playing
            } else {
                old(self).queue.state
            },
            final(self).queue.segments@ == old(self).queue.segments@,
            final(self).queue.generation == old(self).queue.generation,
            step.more == (final(session).index < old(self).queue@.segments.len()),
            final(self).queue@ == if step.start {
                QueueView { state: ReadingState::Playing, ..old(self).queue@ }
            } else {
                old(self).queue@
            },
            *final(session) == advanced(old(self).queue@, *old(session), buffered, required),
    {
        let total: usize = self.queue.segments.len();
        let next: usize = session.index + 1;
        let is_last = next >= total;
        let start = !session.playback_started && (buffered.reaches(required) || is_last);
        if start {
            self.queue.state = ReadingState::Playing;
            session.playback_started = true;
        }
        session.index = next;
        Advance { start, more: next < total }
    }

    /// A chunk could not be made: the reading has failed, unless it is no longer
    /// the current one.
    pub fn fail(&mut self, session: &Session, causas: &Vec<String>) -> (notice: Option<
        FailureNotice,
    >)
        requires
            causas@.len() > 0,
        ensures
            notice is Some <==> old(self).queue.generation == session.generation,
            final(self).queue.state == if notice is Some {
                ReadingState::Failed
            } else {
                old(self).queue.state
            },
            notice matches Some(told) ==> told.message@ == if causas@.last()@.len() <= 140 {
                causas@.last()@
            } else {
                causas@.last()@.subrange(0, 139).push('…')
            },
            match notice {
                Some(told) => {
                    &&& old(self).queue@.serves(*session)
                    &&& final(self).queue@ == (QueueView {
                        state: ReadingState::Failed,
                        ..old(self).queue@
                    })
                    &&& told.cue == Cue::SpeakError
                    &&& told.state == ReadingState::Failed
                    &&& told.message@ == shortened(causas@.last()@)
                },
                None => !old(self).queue@.serves(*session) && final(self).queue@ == old(
                    self,
                ).queue@,
            },
    {
        if self.queue.generation != session.generation {
            return None;
        }
        self.queue.state = ReadingState::Failed;
        Some(
            FailureNotice {
                cue: Cue::SpeakError,
                state: ReadingState::Failed,
                message: motivo_legivel(causas),
            },
        )
    }

    /// How the chunk at `index` is handed to the player, once its audio is there.
    pub fn push_audio_to_front(&self, index: usize) -> (message: Option<ChunkMessage>)
        requires
            index < self.queue@.segments.len() && self.queue@.segments[index as int].audio is Some
                ==> self.queue@.segments[index as int].audio->0.len() <= usize::MAX / 4,
        ensures
            match message {
                Some(chunk) => {
                    &&& index < self.queue@.segments.len()
                    &&& self.queue@.segments[index as int].audio is Some
                    &&& chunk.index == index
                    &&& chunk.total == self.queue@.segments.len()
                    &&& chunk.text@ == self.queue@.segments[index as int].text
                    &&& chunk.audio@ == "data:audio/mpeg;base64,"@ + base64_standard(
                        self.queue@.segments[index as int].audio->0,
                    )
                },
                None => {
                    ||| index >= self.queue@.segments.len()
                    ||| self.queue@.segments[index as int].audio is None
                },
            },
    {
        let total: usize = self.queue.segments.len();
        if index >= total {
            return None;
        }
        let segment = &self.queue.segments[index];
        match &segment.audio {
            None => None,
            Some(audio) => {
                let encoded = encode_base64(audio.as_slice());
                Some(
                    ChunkMessage {
                        index,
                        total,
                        text: copy_text(segment.text.as_str()),
                        audio: data_url(encoded.as_str()),
                    },
                )
            },
        }
    }

    /// The player tells which chunk it has begun to play.
    pub fn set_cursor(&mut self, index: usize)
        ensures
            final(self).queue@ == if index < old(self).queue@.segments.len() {
                QueueView { cursor: index, ..old(self).queue@ }
            } else {
                old(self).queue@
            },
    {
        if index < self.queue.segments.len() {
            self.queue.cursor = index;
        }
    }

    /// The player tells that its state has changed by itself. Stopped is stopped:
    /// after a stop nothing that the player still tells brings a reading back. No
    /// event goes out, since the news came from there.
    pub fn sync_state(&mut self, state: ReadingState) -> (effects: Vec<Effect>)
        ensures
            final(self).queue@ == old(self).queue@.synced(state),
            final(self).queue.state == if old(self).queue.state == ReadingState::Idle {
                ReadingState::Idle
            } else {
                state
            },
            final(self).queue.segments@ == old(self).queue.segments@,
            final(self).queue.cursor == old(self).queue.cursor,
            final(self).queue.generation == old(self).queue.generation,
            final(self).queue.samples@ == old(self).queue.samples@,
            effects@ == if state == ReadingState::Paused && old(self).queue@.state
                != ReadingState::Idle && old(self).queue@.state != ReadingState::Paused {
                seq![Effect::Play(Cue::SpeakPause)]
            } else {
                Seq::<Effect>::empty()
            },
    {
        let anterior = self.queue.state;
        if anterior == ReadingState::Idle || anterior == state {
            return Vec::new();
        }
        self.queue.state = state;
        if state == ReadingState::Paused {
            vec![Effect::Play(Cue::SpeakPause)]
        } else {
            Vec::new()
        }
    }

    /// The last chunk has been played to its end.
    pub fn finished(&mut self) -> (effects: Vec<Effect>)
        ensures
            final(self).queue@ == (QueueView {
                state: ReadingState::Complete,
                ..old(self).queue@
            }),
            effects@ == seq![
                Effect::Play(Cue::SpeakComplete),
                Effect::Emit(ReadingState::Complete),
            ],
    {
        self.queue.state = ReadingState::Complete;
        vec![Effect::Play(Cue::SpeakComplete), Effect::Emit(ReadingState::Complete)]
    }
}

/// Stopping, or beginning another reading, drops every reading that was begun
/// before: none of them serves any more, whatever happens later.
pub proof fn law_old_readings_are_dropped(queue: QueueView, session: Session)
    requires
        queue.generation < u64::MAX,
        session.generation <= queue.generation,
    ensures
        !queue.stopped().serves(session),
        !queue.begun().serves(session),
        session.generation <= queue.stopped().generation,
        session.generation <= queue.begun().generation,
{
}

/// Nothing but stopping and beginning changes the number of the reading.
pub proof fn law_number_changes_with_the_reading(
    queue: QueueView,
    session: Session,
    chunks: Seq<Seq<char>>,
    audio: Seq<u8>,
    seconds: Single,
    spent: Single,
    cached: bool,
    state: ReadingState,
)
    ensures
        queue.loaded(chunks).generation == queue.generation,
        queue.stored(session, audio, seconds, spent, cached).generation == queue.generation,
        queue.paused().generation == queue.generation,
        queue.resumed().generation == queue.generation,
        queue.synced(state).generation == queue.generation,
{
}

/// A pause is undone by resuming, and resuming by a pause.
pub proof fn law_pause_and_resume(queue: QueueView)
    ensures
        queue.state == ReadingState::Playing ==> queue.paused().resumed() == queue,
        queue.state == ReadingState::Paused ==> queue.resumed().paused() == queue,
{
}

/// Once stopped, nothing that the player tells brings the reading back.
pub proof fn law_stopped_is_stopped(queue: QueueView, state: ReadingState)
    ensures
        queue.stopped().synced(state) == queue.stopped(),
        queue.stopped().paused() == queue.stopped(),
        queue.stopped().resumed() == queue.stopped(),
{
}

/// A reading makes its chunks in order, each of them: where those before the one
/// it is at were made, that one is made too once its audio is stored. Neither the
/// texts nor their number change.
pub proof fn law_chunks_are_made_in_order(
    queue: QueueView,
    session: Session,
    audio: Seq<u8>,
    seconds: Single,
    spent: Single,
    cached: bool,
)
    requires
        session.index < queue.segments.len(),
        queue.made(session.index as int),
    ensures
        queue.stored(session, audio, seconds, spent, cached).made(session.index + 1),
        queue.stored(session, audio, seconds, spent, cached).segments.len()
            == queue.segments.len(),
        forall|i: int|
            0 <= i < queue.segments.len() ==> (#[trigger] queue.stored(
                session,
                audio,
                seconds,
                spent,
                cached,
            ).segments[i]).text == queue.segments[i].text,
{
    let after = queue.stored(session, audio, seconds, spent, cached);
    assert forall|i: int|
        0 <= i < session.index + 1 implies (#[trigger] after.segments[i]).audio is Some by {
        if i < session.index {
            assert(queue.segments[i].audio is Some);
        }
    }
}

/// The player starts once, and at the latest with the last chunk.
pub proof fn law_playback_starts_once(
    queue: QueueView,
    session: Session,
    buffered: Single,
    required: Single,
)
    ensures
        session.playback_started ==> !queue.starts(session, buffered, required),
        session.index + 1 == queue.segments.len() && !session.playback_started ==> queue.starts(
            session,
            buffered,
            required,
        ),
{
}

/// A reading after the chunk that it is at was made.
pub open spec fn advanced(
    queue: QueueView,
    session: Session,
    buffered: Single,
    required: Single,
) -> Session {
    Session {
        generation: session.generation,
        index: (session.index + 1) as usize,
        playback_started: session.playback_started || queue.starts(session, buffered, required),
    }
}

/// A reading from its beginning, after as many chunks as there are pairs: what was
/// ready each time, and what was required.
pub open spec fn advanced_by(queue: QueueView, leads: Seq<(Single, Single)>) -> Session
    decreases leads.len(),
{
    if leads.len() == 0 {
        Session { generation: queue.generation, index: 0, playback_started: false }
    } else {
        let (buffered, required) = leads.last();
        advanced(queue, advanced_by(queue, leads.drop_last()), buffered, required)
    }
}

/// How often the player starts on the way.
pub open spec fn times_started(queue: QueueView, leads: Seq<(Single, Single)>) -> nat
    decreases leads.len(),
{
    if leads.len() == 0 {
        0
    } else {
        let (buffered, required) = leads.last();
        let before = advanced_by(queue, leads.drop_last());
        times_started(queue, leads.drop_last()) + if queue.starts(before, buffered, required) {
            1nat
        } else {
            0
        }
    }
}

proof fn lemma_times_started(queue: QueueView, leads: Seq<(Single, Single)>)
    requires
        leads.len() <= queue.segments.len() <= usize::MAX,
    ensures
        advanced_by(queue, leads).index == leads.len(),
        times_started(queue, leads) == if advanced_by(queue, leads).playback_started {
            1nat
        } else {
            0
        },
    decreases leads.len(),
{
    if leads.len() > 0 {
        lemma_times_started(queue, leads.drop_last());
    }
}

/// Over a whole reading the player starts exactly once, however fast its chunks
/// are made.
pub proof fn law_a_reading_starts_to_play_once(queue: QueueView, leads: Seq<(Single, Single)>)
    requires
        0 < leads.len() == queue.segments.len() <= usize::MAX,
    ensures
        times_started(queue, leads) == 1,
        advanced_by(queue, leads).playback_started,
{
    lemma_times_started(queue, leads);
    lemma_times_started(queue, leads.drop_last());
}

/// No two states have one name, so the state that a name stands for is the one
/// that was named.
pub proof fn law_state_names_differ(a: ReadingState, b: ReadingState)
    ensures
        a.called() == b.called() ==> a == b,
{
    reveal_strlit("idle");
    reveal_strlit("generating");
    reveal_strlit("playing");
    reveal_strlit("paused");
    reveal_strlit("complete");
    reveal_strlit("failed");
    assert(a.called()[0] == b.called()[0] || a.called() != b.called());
    assert(a.called().len() == b.called().len() || a.called() != b.called());
}


/// How a reading opens: the state is told before the window takes its shape, and the
/// window has its shape before it is shown. The window of the text is raised exactly
/// where that is wanted, and the text is prepared exactly where it was not yet, as
/// the preferences say.
pub proof fn law_how_a_reading_opens(prefs: ReadingPrefs, already_prepared: bool)
    ensures
        ({
            let steps = opening_steps(prefs, already_prepared);
            &&& steps[0] == OpeningStep::Emit(ReadingState::Generating)
            &&& steps[1] == OpeningStep::Shape(HudShape::reading_shape(prefs.reading_captions))
            &&& steps[2] == OpeningStep::Reveal
            &&& steps.contains(OpeningStep::RaiseReader) <==> prefs.open_reader_on_read
            &&& already_prepared ==> forall|i: int|
                0 <= i < steps.len() ==> !((#[trigger] steps[i]) is Prepare)
            &&& !already_prepared ==> steps.last() == (OpeningStep::Prepare {
                normalize: prefs.normalize_before_reading,
                narrate_tables: prefs.narrate_tables,
            })
            &&& steps.len() == 3 + if prefs.open_reader_on_read {
                1int
            } else {
                0
            } + if already_prepared {
                0int
            } else {
                1
            }
        }),
{
    let steps = opening_steps(prefs, already_prepared);
    if prefs.open_reader_on_read {
        assert(steps[3] == OpeningStep::RaiseReader);
    }
}

/// What lies ahead is what the chunk at the cursor adds to what lies ahead of it:
/// its characters, and its seconds where it was made. Behind the last chunk nothing
/// lies ahead.
pub proof fn law_what_lies_ahead(segments: Seq<SegmentView>, from: int)
    requires
        0 <= from,
    ensures
        from < segments.len() ==> chars_from(segments, from) == segments[from].text.len()
            + chars_from(segments, from + 1),
        from < segments.len() ==> ready_from(segments, from) == if segments[from].audio is Some {
            seq![segments[from].seconds] + ready_from(segments, from + 1)
        } else {
            ready_from(segments, from + 1)
        },
        from >= segments.len() ==> chars_from(segments, from) == 0 && ready_from(
            segments,
            from,
        ).len() == 0,
    decreases segments.len(),
{
    if from < segments.len() - 1 {
        let front = segments.drop_last();
        law_what_lies_ahead(front, from);
        assert(front[from] == segments[from]);
        if segments.last().audio is Some && segments[from].audio is Some {
            let first = seq![segments[from].seconds];
            assert(first + ready_from(front, from + 1).push(segments.last().seconds) =~= (first
                + ready_from(front, from + 1)).push(segments.last().seconds));
        }
    } else if from == segments.len() - 1 {
        lemma_nothing_behind(segments.drop_last(), from);
        lemma_nothing_behind(segments, from + 1);
        assert(seq![segments[from].seconds] + Seq::<Single>::empty()
            =~= Seq::<Single>::empty().push(segments[from].seconds));
    }
}

/// What is loaded is the chunks, in order, none of them made; nothing else changes.
pub proof fn law_loaded_chunks_are_unmade(queue: QueueView, chunks: Seq<Seq<char>>)
    ensures
        queue.loaded(chunks).segments.len() == chunks.len(),
        forall|i: int|
            0 <= i < chunks.len() ==> (#[trigger] queue.loaded(chunks).segments[i]).text
                == chunks[i] && queue.loaded(chunks).segments[i].audio is None,
        queue.loaded(chunks).state == queue.state,
        queue.loaded(chunks).cursor == queue.cursor,
        queue.loaded(chunks).samples == queue.samples,
{
}

} // verus!
