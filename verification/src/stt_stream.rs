//! The live transcription: text that appears while the user still speaks.
//!
//! A partial result is no promise: the recognizer revises its guess as it hears
//! more. So the draft is replaced whole with each message and never appended to,
//! and only what is confirmed can be pasted.

use vstd::prelude::*;
use vstd::utf8::encode_utf8;

use crate::audio::{bytes_of_samples, sample_bytes, TARGET_RATE};
use crate::outside::{base64_standard, encode_base64};
use crate::text::{
    chars_start_with, copy_text, decimal, decimal_text, is_blank, join, join_texts, lemma_texts_push, optional,
    slice_chars, starts_with, texts, to_chars, to_text, trim, trim_slashes, trimmed,
    without_slashes,
};

verus! {

/// How much sound goes into each frame, in milliseconds: the block in which the
/// service takes it anyway.
pub const CHUNK_MS: usize = 250;

/// The samples of such a block.
pub const SAMPLES_PER_CHUNK: usize = 4_000;

/// What the recognizer has understood so far: what it has confirmed, and its
/// current guess at the rest.
#[derive(Debug)]
pub struct LiveTranscript {
    pub confirmed: Vec<String>,
    pub draft: String,
}

/// What a transcript holds.
pub ghost struct TranscriptView {
    pub confirmed: Seq<Seq<char>>,
    pub draft: Seq<char>,
}

impl View for LiveTranscript {
    type V = TranscriptView;

    open spec fn view(&self) -> TranscriptView {
        TranscriptView { confirmed: texts(self.confirmed@), draft: self.draft@ }
    }
}

impl TranscriptView {
    /// What is confirmed, as one text.
    pub open spec fn settled(self) -> Seq<char> {
        join(self.confirmed, " "@)
    }

    /// What is shown: what is confirmed, and the draft behind it.
    pub open spec fn shown(self) -> Seq<char> {
        if self.draft.len() == 0 {
            self.settled()
        } else if self.settled().len() == 0 {
            self.settled() + self.draft
        } else {
            self.settled().push(' ') + self.draft
        }
    }

    /// A new guess takes the place of the last one.
    pub open spec fn with_partial(self, text: Seq<char>) -> TranscriptView {
        TranscriptView { draft: text, ..self }
    }

    /// A confirmed piece ends the guess. An empty one confirms nothing.
    pub open spec fn with_final(self, text: Seq<char>) -> TranscriptView {
        TranscriptView {
            confirmed: if is_blank(text) {
                self.confirmed
            } else {
                self.confirmed.push(trim(text))
            },
            draft: Seq::empty(),
        }
    }
}

impl LiveTranscript {
    /// Nothing understood yet.
    pub fn new() -> (transcript: LiveTranscript)
        ensures
            transcript@ == (TranscriptView { confirmed: Seq::empty(), draft: Seq::empty() }),
    {
        let transcript = LiveTranscript { confirmed: Vec::new(), draft: String::new() };
        proof {
            assert(transcript@.confirmed =~= Seq::<Seq<char>>::empty());
            assert(transcript@.draft =~= Seq::<char>::empty());
        }
        transcript
    }

    /// What is confirmed, without the draft.
    pub fn confirmed_text(&self) -> (text: String)
        ensures
            text@ == self@.settled(),
    {
        join_texts(&self.confirmed, " ")
    }

    /// What is shown: what is confirmed, and the draft behind it.
    pub fn display_text(&self) -> (text: String)
        ensures
            text@ == self@.shown(),
    {
        let mut text = self.confirmed_text();
        if !self.draft.as_str().is_empty() {
            if !text.as_str().is_empty() {
                text.push(' ');
            }
            text.append(self.draft.as_str());
        }
        text
    }

    pub fn apply_partial(&mut self, text: String)
        ensures
            final(self)@ == old(self)@.with_partial(text@),
            final(self).draft@ == text@,
            final(self).confirmed@ == old(self).confirmed@,
    {
        self.draft = text;
    }

    pub fn apply_final(&mut self, text: String)
        ensures
            final(self)@ == old(self)@.with_final(text@),
            final(self).draft@.len() == 0,
            is_blank(text@) ==> final(self).confirmed@ == old(self).confirmed@,
            !is_blank(text@) ==> {
                &&& final(self).confirmed@.len() == old(self).confirmed@.len() + 1
                &&& final(self).confirmed@.drop_last() == old(self).confirmed@
                &&& final(self).confirmed@.last()@ == trim(text@)
            },
    {
        let ghost before = self.confirmed@;
        let clean = trimmed(text.as_str());
        if !clean.as_str().is_empty() {
            proof {
                lemma_texts_push(self.confirmed@, clean);
            }
            self.confirmed.push(clean);
            proof {
                assert(self.confirmed@.drop_last() =~= before);
            }
        }
        self.draft = String::new();
        proof {
            assert(self@.draft =~= Seq::<char>::empty());
        }
    }
}

/// However many guesses come, only the last one counts, and none of them touches
/// what is confirmed.
pub proof fn law_partials_replace_each_other(
    transcript: TranscriptView,
    first: Seq<char>,
    second: Seq<char>,
)
    ensures
        transcript.with_partial(first).with_partial(second) == transcript.with_partial(second),
        transcript.with_partial(first).settled() == transcript.settled(),
{
}

/// Confirming ends the guess: what is shown then is what is confirmed, and it
/// holds what was confirmed before.
pub proof fn law_final_ends_the_draft(transcript: TranscriptView, text: Seq<char>)
    ensures
        transcript.with_final(text).shown() == transcript.with_final(text).settled(),
        is_blank(text) ==> transcript.with_final(text).settled() == transcript.settled(),
        !is_blank(text) && transcript.confirmed.len() > 0 ==> transcript.with_final(text).settled()
            == transcript.settled() + " "@ + trim(text),
        !is_blank(text) && transcript.confirmed.len() == 0 ==> transcript.with_final(text).settled()
            == trim(text),
{
    let longer = transcript.confirmed.push(trim(text));
    assert(longer.drop_last() =~= transcript.confirmed);
}

// --------------------------------------------------------------- the session

/// What the service tells.
#[derive(Debug)]
pub enum ServerMessage {
    Ready,
    Partial(String),
    Final(String),
    Done(String),
    Error(String),
    /// Something that is not known here. The service may learn new things, and an
    /// old client has to go on working.
    Unknown,
}

/// What arrives on the connection.
#[derive(Debug)]
pub enum Incoming {
    /// The connection has ended.
    Ended,
    /// It broke, for this reason.
    Broken(String),
    /// The other side closes it.
    Closed,
    /// Something that carries no text.
    Other,
    Message(ServerMessage),
}

/// What the owner of the session wants.
#[derive(Debug)]
pub enum Command {
    Audio(Vec<i16>),
    Finish,
}

/// What is sent to the service.
#[derive(Debug)]
pub enum Outgoing {
    Audio(Vec<u8>),
    /// A message.
    Text(String),
}

/// What is sent to the service.
pub ghost enum OutgoingView {
    Audio(Seq<u8>),
    Text(Seq<char>),
}

impl View for Outgoing {
    type V = OutgoingView;

    open spec fn view(&self) -> OutgoingView {
        match self {
            Outgoing::Audio(bytes) => OutgoingView::Audio(bytes@),
            Outgoing::Text(text) => OutgoingView::Text(text@),
        }
    }
}

/// The message that declares the sound: its rate, and that the text is wanted
/// without the times of its words.
pub open spec fn config_text() -> Seq<char> {
    "{\"sample_rate\":"@ + decimal(TARGET_RATE as nat)
        + ",\"type\":\"config\",\"words\":false}"@
}

/// The message that no more sound will come.
pub open spec fn eof_text() -> Seq<char> {
    "{\"type\":\"eof\"}"@
}

/// The message that declares the sound.
pub fn config_message() -> (text: String)
    ensures
        text@ == config_text(),
        text@ == "{\"sample_rate\":"@ + decimal(16_000)
            + ",\"type\":\"config\",\"words\":false}"@,
{
    let mut text = copy_text("{\"sample_rate\":");
    text.append(decimal_text(TARGET_RATE as u64).as_str());
    text.append(",\"type\":\"config\",\"words\":false}");
    text
}

/// The message that no more sound will come.
pub fn eof_message() -> (text: String)
    ensures
        text@ == eof_text(),
        text@ == "{\"type\":\"eof\"}"@,
{
    copy_text("{\"type\":\"eof\"}")
}

/// What is sent for a command; where the owner is gone, that is the end too.
pub open spec fn sent_for(command: Option<Command>) -> OutgoingView {
    match command {
        Some(Command::Audio(samples)) => OutgoingView::Audio(sample_bytes(samples@)),
        _ => OutgoingView::Text(eof_text()),
    }
}

/// How a session goes on.
#[derive(Debug)]
pub enum Progress {
    Continue,
    /// It ends with this text.
    Finished(String),
    /// It ends with this failure.
    Failed(String),
}

/// How a session goes on.
pub ghost enum ProgressView {
    Continue,
    Finished(Seq<char>),
    Failed(Seq<char>),
}

impl View for Progress {
    type V = ProgressView;

    open spec fn view(&self) -> ProgressView {
        match self {
            Progress::Continue => ProgressView::Continue,
            Progress::Finished(text) => ProgressView::Finished(text@),
            Progress::Failed(reason) => ProgressView::Failed(reason@),
        }
    }
}

/// A session that is being opened.
#[derive(Debug)]
pub struct Opening {
    pub request: Handshake,
    /// What is sent before anything else.
    pub first: Outgoing,
    pub session: SttStream,
}

/// A session with the service.
#[derive(Debug)]
pub struct SttStream {
    pub transcript: LiveTranscript,
    /// The service was told that no more sound will come.
    pub finished: bool,
}

/// The transcript after something arrived.
pub open spec fn heard(transcript: TranscriptView, incoming: Incoming) -> TranscriptView {
    match incoming {
        Incoming::Message(ServerMessage::Partial(text)) => transcript.with_partial(text@),
        Incoming::Message(ServerMessage::Final(text)) => transcript.with_final(text@),
        _ => transcript,
    }
}

/// How a session goes on after something arrived. It ends with the text of the
/// service where that says it is done, with what was confirmed where the
/// connection is over before that, and with a failure where it broke or the
/// service refuses.
pub open spec fn goes_on(transcript: TranscriptView, incoming: Incoming) -> ProgressView {
    match incoming {
        Incoming::Ended => ProgressView::Finished(transcript.settled()),
        Incoming::Closed => ProgressView::Finished(transcript.settled()),
        Incoming::Broken(reason) => ProgressView::Failed("conexão caiu: "@ + reason@),
        Incoming::Message(ServerMessage::Done(text)) => ProgressView::Finished(text@),
        Incoming::Message(ServerMessage::Error(message)) => ProgressView::Failed(
            "a speech-api recusou o stream: "@ + message@,
        ),
        _ => ProgressView::Continue,
    }
}

impl SttStream {
    pub fn new() -> (session: SttStream)
        ensures
            !session.finished,
            session.transcript@ == (TranscriptView {
                confirmed: Seq::empty(),
                draft: Seq::empty(),
            }),
    {
        SttStream { transcript: LiveTranscript::new(), finished: false }
    }

    /// Is the session still taking sound?
    pub fn takes_commands(&self) -> (takes: bool)
        ensures
            takes == !self.finished,
    {
        !self.finished
    }

    /// Opens a session: how the connection is opened, and what is sent on it first.
    /// The sound is declared before any of it is sent, since later the service does
    /// not take it.
    pub fn connect(base_url: &str, credentials: Option<(String, String)>) -> (opening: Result<
        Opening,
        String,
    >)
        requires
            credentials matches Some((username, password)) ==> encode_utf8(
                username@ + ":"@ + password@,
            ).len() <= usize::MAX / 4,
        ensures
            match opening {
                Ok(opened) => {
                    &&& stream_address(base_url@) == Some(opened.request.url@)
                    &&& optional(opened.request.authorization) == login_header(credentials)
                    &&& opened.first@ == OutgoingView::Text(config_text())
                    &&& !opened.session.finished
                    &&& opened.session.transcript@ == (TranscriptView {
                        confirmed: Seq::empty(),
                        draft: Seq::empty(),
                    })
                },
                Err(reason) => stream_address(base_url@) is None && reason@
                    == "endereço da API sem esquema http/https: "@ + base_url@,
            },
    {
        let url = match websocket_url(base_url) {
            Ok(url) => url,
            Err(reason) => return Err(reason),
        };
        let request = build_request(url.as_str(), credentials);
        let first = Outgoing::Text(config_message());
        Ok(Opening { request, first, session: SttStream::new() })
    }

    /// What is sent for a command; where the owner is gone, that is the end too.
    pub fn command(&mut self, command: Option<Command>) -> (out: Outgoing)
        ensures
            final(self).transcript@ == old(self).transcript@,
            out@ == sent_for(command),
            out is Audio <==> command matches Some(Command::Audio(_)),
            out matches Outgoing::Audio(bytes) ==> bytes@ == sample_bytes(command->0->Audio_0@),
            out matches Outgoing::Text(text) ==> text@ == "{\"type\":\"eof\"}"@,
            final(self).finished == (old(self).finished || !(command matches Some(
                Command::Audio(_),
            ))),
    {
        match command {
            Some(Command::Audio(samples)) => Outgoing::Audio(bytes_of_samples(samples.as_slice())),
            Some(Command::Finish) | None => {
                self.finished = true;
                Outgoing::Text(eof_message())
            },
        }
    }

    /// The sound could not be sent: the session ends with what was confirmed.
    pub fn sending_failed(&self) -> (text: String)
        ensures
            text@ == self.transcript@.settled(),
    {
        self.transcript.confirmed_text()
    }

    /// Takes what arrived on the connection.
    pub fn receive(&mut self, incoming: Incoming) -> (progress: Progress)
        ensures
            final(self).transcript@ == heard(old(self).transcript@, incoming),
            final(self).finished == old(self).finished,
            progress@ == goes_on(old(self).transcript@, incoming),
            progress is Finished <==> incoming is Ended || incoming is Closed || (
            incoming is Message && incoming->Message_0 is Done),
            progress is Failed <==> incoming is Broken || (incoming is Message
                && incoming->Message_0 is Error),
    {
        match incoming {
            Incoming::Ended => Progress::Finished(self.transcript.confirmed_text()),
            Incoming::Closed => Progress::Finished(self.transcript.confirmed_text()),
            Incoming::Broken(reason) => {
                let mut told = copy_text("conexão caiu: ");
                told.append(reason.as_str());
                Progress::Failed(told)
            },
            Incoming::Other => Progress::Continue,
            Incoming::Message(message) => match message {
                ServerMessage::Ready => Progress::Continue,
                ServerMessage::Unknown => Progress::Continue,
                ServerMessage::Partial(text) => {
                    self.transcript.apply_partial(text);
                    Progress::Continue
                },
                ServerMessage::Final(text) => {
                    self.transcript.apply_final(text);
                    Progress::Continue
                },
                ServerMessage::Done(text) => Progress::Finished(text),
                ServerMessage::Error(message) => {
                    let mut told = copy_text("a speech-api recusou o stream: ");
                    told.append(message.as_str());
                    Progress::Failed(told)
                },
            },
        }
    }
}

/// What waiting for the end of a session gave.
#[derive(Debug)]
pub enum Waited {
    /// The session was ended before.
    AlreadyTaken,
    /// It did not end in time.
    TimedOut,
    /// It ended, with a text or with a failure.
    Ended(Result<String, String>),
}

// ------------------------------------------------------------------- frames

/// The samples in blocks of a quarter of a second, the last one shorter where they
/// do not come out even.
pub open spec fn blocks(samples: Seq<i16>) -> Seq<Seq<i16>>
    decreases samples.len(),
{
    if samples.len() == 0 {
        Seq::empty()
    } else if samples.len() <= SAMPLES_PER_CHUNK {
        seq![samples]
    } else {
        seq![samples.take(SAMPLES_PER_CHUNK as int)] + blocks(
            samples.skip(SAMPLES_PER_CHUNK as int),
        )
    }
}

/// What a list of blocks holds.
pub open spec fn blocks_view(list: Seq<Vec<i16>>) -> Seq<Seq<i16>> {
    list.map_values(|block: Vec<i16>| block@)
}

impl SttStream {
    /// What is shown at the moment.
    pub fn display_text(&self) -> (text: String)
        ensures
            text@ == self.transcript@.shown(),
    {
        self.transcript.display_text()
    }

    /// Cuts sound into the blocks in which it is sent: who brings it need not care
    /// how much there is.
    pub fn push(&self, samples: &[i16]) -> (out: Vec<Vec<i16>>)
        ensures
            blocks_view(out@) == blocks(samples@),
    {
        let mut out: Vec<Vec<i16>> = Vec::new();
        let total: usize = samples.len();
        let mut start: usize = 0;
        proof {
            assert(samples@.skip(0) =~= samples@);
            assert(blocks_view(out@) + blocks(samples@) =~= blocks(samples@));
        }
        while start < total
            invariant
                start <= total,
                total == samples@.len(),
                blocks_view(out@) + blocks(samples@.skip(start as int)) == blocks(samples@),
            decreases total - start,
        {
            let end: usize = if total - start > SAMPLES_PER_CHUNK {
                start + SAMPLES_PER_CHUNK
            } else {
                total
            };
            let mut block: Vec<i16> = Vec::new();
            let mut i: usize = start;
            while i < end
                invariant
                    start <= i <= end <= total,
                    total == samples@.len(),
                    block@ == samples@.subrange(start as int, i as int),
                decreases end - i,
            {
                block.push(samples[i]);
                i = i + 1;
            }
            let ghost before = blocks_view(out@);
            let ghost rest = samples@.skip(start as int);
            let ghost piece = block@;
            out.push(block);
            proof {
                assert(blocks_view(out@) =~= before.push(piece));
                let after = samples@.skip(end as int);
                if rest.len() <= SAMPLES_PER_CHUNK {
                    assert(piece =~= rest);
                    assert(after =~= Seq::<i16>::empty());
                    assert(before.push(piece) + blocks(after) =~= before + blocks(rest));
                } else {
                    assert(piece =~= rest.take(SAMPLES_PER_CHUNK as int));
                    assert(after =~= rest.skip(SAMPLES_PER_CHUNK as int));
                    assert(before.push(piece) + blocks(after) =~= before + blocks(rest));
                }
            }
            start = end;
        }
        proof {
            assert(samples@.skip(start as int) =~= Seq::<i16>::empty());
            assert(blocks_view(out@) + blocks(samples@.skip(start as int)) =~= blocks_view(out@));
        }
        out
    }

    /// The text of a session that is being ended. What was confirmed counts where the
    /// session was ended before, or does not end in time: an imperfect text is better
    /// than none.
    pub fn finish(&self, waited: Waited) -> (text: Result<String, String>)
        ensures
            match waited {
                Waited::Ended(outcome) => text == outcome,
                _ => text is Ok && text->Ok_0@ == self.transcript@.settled(),
            },
    {
        match waited {
            Waited::Ended(outcome) => outcome,
            Waited::AlreadyTaken => Ok(self.transcript.confirmed_text()),
            Waited::TimedOut => Ok(self.transcript.confirmed_text()),
        }
    }
}

/// The blocks, one after the other.
pub open spec fn joined(list: Seq<Seq<i16>>) -> Seq<i16>
    decreases list.len(),
{
    if list.len() == 0 {
        Seq::empty()
    } else {
        list[0] + joined(list.drop_first())
    }
}

/// The blocks are the sound: joined they are its samples, none is empty, and none
/// is longer than a quarter of a second.
pub proof fn law_blocks_are_the_sound(samples: Seq<i16>)
    ensures
        joined(blocks(samples)) == samples,
        forall|i: int|
            0 <= i < blocks(samples).len() ==> 0 < (#[trigger] blocks(samples)[i]).len() <= 4_000,
        forall|i: int|
            0 <= i < blocks(samples).len() - 1 ==> (#[trigger] blocks(samples)[i]).len() == 4_000,
    decreases samples.len(),
{
    if samples.len() == 0 {
        assert(joined(blocks(samples)) =~= samples);
    } else if samples.len() <= SAMPLES_PER_CHUNK {
        assert(blocks(samples).drop_first() =~= Seq::<Seq<i16>>::empty());
        assert(joined(Seq::<Seq<i16>>::empty()) =~= Seq::<i16>::empty());
        assert(joined(blocks(samples)) =~= samples);
    } else {
        let rest = samples.skip(SAMPLES_PER_CHUNK as int);
        law_blocks_are_the_sound(rest);
        let list = blocks(samples);
        assert(list.drop_first() =~= blocks(rest));
        assert(joined(list) =~= samples);
        assert forall|i: int| 0 <= i < list.len() implies 0 < (#[trigger] list[i]).len()
            <= SAMPLES_PER_CHUNK by {
            if i > 0 {
                assert(list[i] == blocks(rest)[i - 1]);
            }
        }
        assert forall|i: int| 0 <= i < list.len() - 1 implies (#[trigger] list[i]).len()
            == 4_000 by {
            if i > 0 {
                assert(list[i] == blocks(rest)[i - 1]);
            }
        }
    }
}

/// What goes over the connection for some blocks, one after the other.
pub open spec fn sent(list: Seq<Seq<i16>>) -> Seq<u8>
    decreases list.len(),
{
    if list.len() == 0 {
        Seq::empty()
    } else {
        sample_bytes(list[0]) + sent(list.drop_first())
    }
}

proof fn lemma_bytes_append(a: Seq<i16>, b: Seq<i16>)
    ensures
        sample_bytes(a + b) == sample_bytes(a) + sample_bytes(b),
    decreases b.len(),
{
    if b.len() == 0 {
        assert(a + b =~= a);
        assert(sample_bytes(a) + sample_bytes(b) =~= sample_bytes(a));
    } else {
        assert((a + b).drop_last() =~= a + b.drop_last());
        lemma_bytes_append(a, b.drop_last());
        assert(sample_bytes(a + b) =~= sample_bytes(a) + sample_bytes(b));
    }
}

proof fn lemma_sent(list: Seq<Seq<i16>>)
    ensures
        sent(list) == sample_bytes(joined(list)),
    decreases list.len(),
{
    if list.len() > 0 {
        lemma_sent(list.drop_first());
        lemma_bytes_append(list[0], joined(list.drop_first()));
    }
}

/// However sound is cut, what the service gets is the bytes of all of it, in
/// order.
pub proof fn law_all_the_sound_is_sent(samples: Seq<i16>)
    ensures
        sent(blocks(samples)) == sample_bytes(samples),
{
    law_blocks_are_the_sound(samples);
    lemma_sent(blocks(samples));
}

/// What goes over the connection for the commands of a session, while it takes them:
/// first the message that declares the sound.
pub open spec fn frames(commands: Seq<Option<Command>>) -> Seq<OutgoingView>
    decreases commands.len(),
{
    if commands.len() == 0 {
        seq![OutgoingView::Text(config_text())]
    } else if still_taken(commands.drop_last()) {
        frames(commands.drop_last()).push(sent_for(commands.last()))
    } else {
        frames(commands.drop_last())
    }
}

/// Does a session take commands after these? It does until one of them ends it.
pub open spec fn still_taken(commands: Seq<Option<Command>>) -> bool {
    forall|i: int|
        0 <= i < commands.len() ==> (#[trigger] commands[i]) matches Some(Command::Audio(_))
}

/// The sound is declared first and once, all that follows is sound, and where the
/// end is told, it is told once and last.
pub proof fn law_config_comes_first(commands: Seq<Option<Command>>)
    ensures
        frames(commands).len() > 0,
        frames(commands)[0] == OutgoingView::Text(config_text()),
        forall|i: int|
            0 < i < frames(commands).len() - 1 ==> (#[trigger] frames(commands)[i]) is Audio,
        still_taken(commands) ==> frames(commands).len() == commands.len() + 1 && (forall|i: int|
            0 < i < frames(commands).len() ==> (#[trigger] frames(commands)[i]) is Audio),
        !still_taken(commands) ==> frames(commands).len() > 1 && frames(commands).last()
            == OutgoingView::Text(eof_text()),
    decreases commands.len(),
{
    if commands.len() > 0 {
        let front = commands.drop_last();
        let last = commands.last();
        law_config_comes_first(front);
        let all = frames(commands);
        assert(commands[commands.len() - 1] == last);
        if still_taken(front) {
            assert(still_taken(commands) == (last matches Some(Command::Audio(_)))) by {
                if last matches Some(Command::Audio(_)) {
                    assert forall|i: int| 0 <= i < commands.len() implies (#[trigger] commands[i])
                        matches Some(Command::Audio(_)) by {
                        if i < front.len() {
                            assert(front[i] == commands[i]);
                        }
                    }
                }
            }
            assert forall|i: int| 0 < i < all.len() - 1 implies (#[trigger] all[i]) is Audio by {
                assert(all[i] == frames(front)[i]);
            }
        } else {
            let i = choose|i: int|
                0 <= i < front.len() && !((#[trigger] front[i]) matches Some(Command::Audio(_)));
            assert(commands[i] == front[i]);
        }
    }
}

// ------------------------------------------------------------------ addresses

/// The address of the live transcription at a service, where the address of the
/// service has a scheme that there is a counterpart for.
pub open spec fn stream_address(base_url: Seq<char>) -> Option<Seq<char>> {
    let base = without_slashes(base_url);
    if starts_with(base, "https://"@) {
        Some("wss://"@ + base.skip("https://"@.len() as int) + "/stt/stream"@)
    } else if starts_with(base, "http://"@) {
        Some("ws://"@ + base.skip("http://"@.len() as int) + "/stt/stream"@)
    } else {
        None
    }
}

/// The address of the live transcription at a service: `http` becomes `ws`, and
/// `https` becomes `wss`.
pub fn websocket_url(base_url: &str) -> (url: Result<String, String>)
    ensures
        match url {
            Ok(address) => stream_address(base_url@) == Some(address@),
            Err(reason) => stream_address(base_url@) is None && reason@
                == "endereço da API sem esquema http/https: "@ + base_url@,
        },
{
    let base = to_chars(trim_slashes(base_url).as_str());
    proof {
        reveal_strlit("https://");
        reveal_strlit("http://");
    }
    let (scheme, cut): (&str, usize) = if chars_start_with(base.as_slice(), "https://") {
        ("wss://", 8)
    } else if chars_start_with(base.as_slice(), "http://") {
        ("ws://", 7)
    } else {
        let mut reason = copy_text("endereço da API sem esquema http/https: ");
        reason.append(base_url);
        return Err(reason);
    };
    let rest = slice_chars(base.as_slice(), cut, base.len());
    proof {
        assert(rest@ =~= base@.skip(cut as int));
    }
    let mut url = copy_text(scheme);
    url.append(to_text(rest.as_slice()).as_str());
    url.append("/stt/stream");
    Ok(url)
}

/// The header that carries a login, given the login in base64.
pub fn basic_header(encoded: &str) -> (header: String)
    ensures
        header@ == "Basic "@ + encoded@,
{
    let mut header = copy_text("Basic ");
    header.append(encoded);
    header
}

/// The header that carries a login.
pub fn authorization(username: &str, password: &str) -> (header: String)
    requires
        encode_utf8(username@ + ":"@ + password@).len() <= usize::MAX / 4,
    ensures
        header@ == "Basic "@ + base64_standard(encode_utf8(username@ + ":"@ + password@)),
{
    let mut pair = copy_text(username);
    pair.append(":");
    pair.append(password);
    let encoded = encode_base64(pair.as_str().as_bytes());
    basic_header(encoded.as_str())
}

/// How the connection to the live transcription is opened.
#[derive(Debug)]
pub struct Handshake {
    pub url: String,
    /// The header that carries the login, where the service asks for one.
    pub authorization: Option<String>,
}

/// The header that carries a login, where there is one.
pub open spec fn login_header(credentials: Option<(String, String)>) -> Option<Seq<char>> {
    match credentials {
        Some((username, password)) => Some(
            "Basic "@ + base64_standard(encode_utf8(username@ + ":"@ + password@)),
        ),
        None => None,
    }
}

/// How the connection is opened: with the login, where there is one.
pub fn build_request(url: &str, credentials: Option<(String, String)>) -> (request: Handshake)
    requires
        credentials matches Some((username, password)) ==> encode_utf8(
            username@ + ":"@ + password@,
        ).len() <= usize::MAX / 4,
    ensures
        request.url@ == url@,
        request.authorization is Some <==> credentials is Some,
        credentials matches Some((username, password)) ==> request.authorization->0@ == "Basic "@
            + base64_standard(encode_utf8(username@ + ":"@ + password@)),
        optional(request.authorization) == login_header(credentials),
{
    let header = match credentials {
        Some((username, password)) => Some(authorization(username.as_str(), password.as_str())),
        None => None,
    };
    Handshake { url: copy_text(url), authorization: header }
}


/// What is shown is what is confirmed, then the draft, with one space between them
/// where there is something on either side of it.
pub proof fn law_what_is_shown(transcript: TranscriptView)
    ensures
        transcript.draft.len() == 0 ==> transcript.shown() == transcript.settled(),
        transcript.settled().len() == 0 ==> transcript.shown() == transcript.draft,
        transcript.draft.len() > 0 && transcript.settled().len() > 0 ==> transcript.shown()
            == transcript.settled() + seq![' '] + transcript.draft,
{
    assert(Seq::<char>::empty() + transcript.draft =~= transcript.draft);
    if transcript.settled().len() == 0 {
        assert(transcript.settled() =~= Seq::<char>::empty());
        assert(transcript.shown() =~= transcript.draft);
    }
    assert(transcript.settled().push(' ') =~= transcript.settled() + seq![' ']);
}

/// A session ends in one of two ways. It ends with a text: that of the service
/// where the service says that it is done, and what was confirmed where the
/// connection is over. It ends with a failure, which holds the reason, where the
/// connection broke or the service refuses. Nothing else ends it, and only a guess
/// or a confirmed piece changes what was understood.
pub proof fn law_how_a_session_ends(transcript: TranscriptView, incoming: Incoming)
    ensures
        ({
            let next = goes_on(transcript, incoming);
            let after = heard(transcript, incoming);
            &&& incoming is Ended || incoming is Closed ==> next == ProgressView::Finished(
                join(transcript.confirmed, seq![' ']),
            )
            &&& incoming matches Incoming::Message(ServerMessage::Done(text)) ==> next
                == ProgressView::Finished(text@)
            &&& incoming matches Incoming::Broken(reason) ==> next == ProgressView::Failed(
                "conexão caiu: "@ + reason@,
            )
            &&& incoming matches Incoming::Message(ServerMessage::Error(reason)) ==> next
                == ProgressView::Failed("a speech-api recusou o stream: "@ + reason@)
            &&& incoming is Other ==> next is Continue
            &&& incoming matches Incoming::Message(message) ==> (next is Continue <==> !(
            message is Done) && !(message is Error))
            &&& incoming matches Incoming::Message(ServerMessage::Partial(text)) ==> after.draft
                == text@ && after.confirmed == transcript.confirmed
            &&& incoming matches Incoming::Message(ServerMessage::Final(text)) ==> after.draft.len()
                == 0 && after.confirmed == if is_blank(text@) {
                transcript.confirmed
            } else {
                transcript.confirmed.push(trim(text@))
            }
            &&& !(incoming is Message) ==> after == transcript
            &&& incoming matches Incoming::Message(message) ==> message is Partial
                || message is Final || after == transcript
        }),
{
    reveal_strlit(" ");
    assert(" "@ =~= seq![' ']);
}

proof fn lemma_slashes_off(base: Seq<char>, slashes: Seq<char>)
    requires
        base.len() > 0,
        base.last() != '/',
        forall|i: int| 0 <= i < slashes.len() ==> #[trigger] slashes[i] == '/',
    ensures
        without_slashes(base + slashes) == base,
    decreases slashes.len(),
{
    if slashes.len() == 0 {
        assert(base + slashes =~= base);
    } else {
        assert((base + slashes).drop_last() =~= base + slashes.drop_last());
        lemma_slashes_off(base, slashes.drop_last());
    }
}

/// The live transcription is at the host of the service, over the same kind of
/// connection: an encrypted one where the service has one, and a plain one where it
/// has not. The slashes at the end of the address do not count.
pub proof fn law_same_host_same_kind(host: Seq<char>, slashes: Seq<char>)
    requires
        host.len() > 0,
        host.last() != '/',
        forall|i: int| 0 <= i < slashes.len() ==> #[trigger] slashes[i] == '/',
    ensures
        stream_address("https://"@ + host + slashes) == Some("wss://"@ + host + "/stt/stream"@),
        stream_address("http://"@ + host + slashes) == Some("ws://"@ + host + "/stt/stream"@),
{
    reveal_strlit("https://");
    reveal_strlit("http://");
    let safe = "https://"@ + host;
    let plain = "http://"@ + host;
    lemma_slashes_off(safe, slashes);
    lemma_slashes_off(plain, slashes);
    assert("https://"@.len() == 8 && "http://"@.len() == 7);
    assert(safe.take(8) =~= "https://"@);
    assert(safe.skip(8) =~= host);
    assert(plain.take(7) =~= "http://"@);
    assert(plain.skip(7) =~= host);
    if starts_with(plain, "https://"@) {
        assert(plain.take(8)[4] == plain[4]);
        assert("https://"@[4] == 's' && "http://"@[4] == ':');
    }
}

/// An address that begins in neither way has no live transcription.
pub proof fn law_no_scheme_no_stream(base_url: Seq<char>)
    requires
        base_url.len() < 7 || base_url.subrange(0, 7) != "http://"@,
        base_url.len() < 8 || base_url.subrange(0, 8) != "https://"@,
    ensures
        stream_address(base_url) is None,
{
    reveal_strlit("https://");
    reveal_strlit("http://");
    assert("https://"@.len() == 8 && "http://"@.len() == 7);
    let base = without_slashes(base_url);
    lemma_slashes_prefix(base_url);
    if base.len() >= 7 {
        assert(base.take(7) =~= base_url.subrange(0, 7));
    }
    if base.len() >= 8 {
        assert(base.take(8) =~= base_url.subrange(0, 8));
    }
}

proof fn lemma_slashes_prefix(text: Seq<char>)
    ensures
        without_slashes(text).len() <= text.len(),
        without_slashes(text) == text.take(without_slashes(text).len() as int),
    decreases text.len(),
{
    if text.len() > 0 && text.last() == '/' {
        lemma_slashes_prefix(text.drop_last());
        let kept = without_slashes(text);
        assert(text.drop_last().take(kept.len() as int) =~= text.take(kept.len() as int));
    } else {
        assert(text.take(text.len() as int) =~= text);
    }
}

} // verus!
