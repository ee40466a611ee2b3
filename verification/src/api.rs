//! What the app asks of the speech service, and how it cuts text for it.
//!
//! Text is read aloud in chunks: the service answers with a whole file, so a
//! short first chunk is what brings the first sound early.

use vstd::prelude::*;

use crate::float::Single;
use crate::outside::{show_status, status_display};
use crate::text::{
    blank, copy_text, is_blank, is_white, join, lemma_join_extends, lemma_texts_push, lemma_trim,
    lemma_words_shape, optional, optional_str, squeeze, squeezed, starts_with, texts, to_chars, to_text, trim, trim_chars,
    trim_slashes, without_slashes, words,
};

verus! {

/// Above this a chunk takes too long to come; below it the prosody suffers.
pub const CHUNK_TARGET_CHARS: usize = 220;

/// The first chunk is short on purpose: it sets the time to the first sound.
pub const FIRST_CHUNK_CHARS: usize = 90;

// ------------------------------------------------------------------ requests

/// A login for the service.
#[derive(Debug)]
pub struct Credentials {
    pub username: String,
    pub password: String,
}

/// What came of a text that was to be rewritten.
#[derive(Debug)]
pub struct RewriteResult {
    pub text: String,
    pub rewritten: RewriteReport,
}

#[derive(Debug)]
pub struct RewriteReport {
    pub applied: bool,
    pub elapsed_ms: u64,
    pub error: Option<String>,
    pub skipped: Option<String>,
}

/// What came of a text that was to be spoken.
#[derive(Debug)]
pub struct TtsResponse {
    /// Where the audio can be had.
    pub url_path: String,
    /// Not always the voice that was asked for.
    pub voice: String,
    pub cached: bool,
    pub elapsed_ms: u64,
    pub bytes: u64,
}

/// What came of a recording that was to be transcribed.
#[derive(Debug)]
pub struct TranscriptionResponse {
    pub text: String,
}

/// The voices that the service has.
#[derive(Debug)]
pub struct VoiceCatalog {
    pub default: String,
    pub custom: Vec<String>,
    pub base: Vec<String>,
}

/// Where the service is, and the login that it asks for.
#[derive(Debug)]
pub struct SpeechApi {
    pub base_url: String,
    pub credentials: Option<Credentials>,
}

/// What a login reads as.
pub open spec fn login_view(credentials: Option<Credentials>) -> Option<(Seq<char>, Seq<char>)> {
    match credentials {
        Some(given) => Some((given.username@, given.password@)),
        None => None,
    }
}

#[derive(Debug, Clone, Copy, PartialEq, Eq, Structural)]
pub enum Method {
    Get,
    Post,
}

/// A text that is to be made ready to be spoken. What marks it up is always
/// taken out.
#[derive(Debug)]
pub struct PrepareRequest {
    pub text: String,
    pub sanitize: bool,
    pub normalize: bool,
    pub narrate_tables: bool,
}

/// A text that is to be rewritten.
#[derive(Debug)]
pub struct RewriteRequest {
    pub text: String,
    pub preset: String,
    pub intensity: u8,
    pub model: Option<String>,
}

/// A text that is to be spoken.
#[derive(Debug)]
pub struct TtsRequest {
    pub text: String,
    pub voice: String,
    pub speed: Single,
}

/// What a request carries.
#[derive(Debug)]
pub enum Body {
    Nothing,
    /// A recording, and the fields of the form that goes with it.
    Form { wav: Vec<u8>, fields: Vec<(&'static str, String)> },
    Prepare(PrepareRequest),
    Rewrite(RewriteRequest),
    Tts(TtsRequest),
}

/// What a request carries.
pub ghost enum BodyView {
    Nothing,
    Form { wav: Seq<u8>, fields: Seq<(Seq<char>, Seq<char>)> },
    Prepare { text: Seq<char>, sanitize: bool, normalize: bool, narrate_tables: bool },
    Rewrite { text: Seq<char>, preset: Seq<char>, intensity: u8, model: Option<Seq<char>> },
    Tts { text: Seq<char>, voice: Seq<char>, speed: Single },
}

/// What a list of fields reads as.
pub open spec fn fields_view(fields: Seq<(&'static str, String)>) -> Seq<(Seq<char>, Seq<char>)> {
    fields.map_values(|field: (&'static str, String)| (field.0@, field.1@))
}

impl View for Body {
    type V = BodyView;

    open spec fn view(&self) -> BodyView {
        match self {
            Body::Nothing => BodyView::Nothing,
            Body::Form { wav, fields } => BodyView::Form {
                wav: wav@,
                fields: fields_view(fields@),
            },
            Body::Prepare(asked) => BodyView::Prepare {
                text: asked.text@,
                sanitize: asked.sanitize,
                normalize: asked.normalize,
                narrate_tables: asked.narrate_tables,
            },
            Body::Rewrite(asked) => BodyView::Rewrite {
                text: asked.text@,
                preset: asked.preset@,
                intensity: asked.intensity,
                model: optional(asked.model),
            },
            Body::Tts(asked) => BodyView::Tts {
                text: asked.text@,
                voice: asked.voice@,
                speed: asked.speed,
            },
        }
    }
}

/// A request to the service, ready to be sent.
#[derive(Debug)]
pub struct Request {
    pub method: Method,
    pub url: String,
    pub login: Option<Credentials>,
    pub body: Body,
}

/// A request to the service.
pub ghost struct RequestView {
    pub method: Method,
    pub url: Seq<char>,
    pub login: Option<(Seq<char>, Seq<char>)>,
    pub body: BodyView,
}

impl View for Request {
    type V = RequestView;

    open spec fn view(&self) -> RequestView {
        RequestView {
            method: self.method,
            url: self.url@,
            login: login_view(self.login),
            body: self.body@,
        }
    }
}

/// The fields that go with a recording. The prompt teaches the recognizer words,
/// and goes along where there is one.
pub open spec fn transcription_form(model: Seq<char>, prompt: Seq<char>) -> Seq<
    (Seq<char>, Seq<char>),
> {
    let fields = seq![("model"@, model), ("response_format"@, "json"@)];
    if is_blank(prompt) {
        fields
    } else {
        fields.push(("prompt"@, prompt))
    }
}

impl SpeechApi {
    /// The service at an address, whatever slashes it ends in.
    pub fn new(base_url: &str, credentials: Option<Credentials>) -> (api: SpeechApi)
        ensures
            api.base_url@ == without_slashes(base_url@),
            api.credentials == credentials,
            api.base_url@.len() <= base_url@.len(),
            api.base_url@ == base_url@.take(api.base_url@.len() as int),
            api.base_url@.len() > 0 ==> api.base_url@.last() != '/',
            forall|i: int|
                api.base_url@.len() <= i < base_url@.len() ==> #[trigger] base_url@[i] == '/',
    {
        proof {
            lemma_slashes(base_url@);
        }
        SpeechApi { base_url: trim_slashes(base_url), credentials }
    }

    /// What is asked for at a path of the service, with the login where there is
    /// one.
    pub open spec fn asked(self, method: Method, path: Seq<char>, body: BodyView) -> RequestView {
        RequestView {
            method,
            url: self.base_url@ + path,
            login: login_view(self.credentials),
            body,
        }
    }

    fn request(&self, method: Method, path: &str, body: Body) -> (request: Request)
        ensures
            request@ == self.asked(method, path@, body@),
            request.method == method,
            request.url@ == self.base_url@ + path@,
            match (request.login, self.credentials) {
                (Some(login), Some(given)) => login.username@ == given.username@ && login.password@
                    == given.password@,
                (None, None) => true,
                _ => false,
            },
            request.body == body,
    {
        let mut url = copy_text(self.base_url.as_str());
        url.append(path);
        let login = match &self.credentials {
            Some(given) => Some(
                Credentials {
                    username: copy_text(given.username.as_str()),
                    password: copy_text(given.password.as_str()),
                },
            ),
            None => None,
        };
        Request { method, url, login, body }
    }

    /// Asks whether the service is there. Asked ahead of time, it opens the
    /// connection.
    pub fn health(&self) -> (request: Request)
        ensures
            request@ == self.asked(Method::Get, "/health"@, BodyView::Nothing),
            request.method == Method::Get,
            request.url@ == self.base_url@ + "/health"@,
            match (request.login, self.credentials) {
                (Some(login), Some(given)) => login.username@ == given.username@ && login.password@
                    == given.password@,
                (None, None) => true,
                _ => false,
            },
            request.body is Nothing,
    {
        self.request(Method::Get, "/health", Body::Nothing)
    }

    /// Asks which voices there are.
    pub fn voices(&self) -> (request: Request)
        ensures
            request@ == self.asked(Method::Get, "/voices/names"@, BodyView::Nothing),
            request.method == Method::Get,
            request.url@ == self.base_url@ + "/voices/names"@,
            match (request.login, self.credentials) {
                (Some(login), Some(given)) => login.username@ == given.username@ && login.password@
                    == given.password@,
                (None, None) => true,
                _ => false,
            },
            request.body is Nothing,
    {
        self.request(Method::Get, "/voices/names", Body::Nothing)
    }

    /// Asks which ways of rewriting there are.
    pub fn rewrite_presets(&self) -> (request: Request)
        ensures
            request@ == self.asked(Method::Get, "/text/presets"@, BodyView::Nothing),
            request.method == Method::Get,
            request.url@ == self.base_url@ + "/text/presets"@,
            match (request.login, self.credentials) {
                (Some(login), Some(given)) => login.username@ == given.username@ && login.password@
                    == given.password@,
                (None, None) => true,
                _ => false,
            },
            request.body is Nothing,
    {
        self.request(Method::Get, "/text/presets", Body::Nothing)
    }

    /// Asks for the transcription of a recording.
    pub fn transcribe(&self, wav: Vec<u8>, model: &str, prompt: &str) -> (request: Request)
        ensures
            request@ == self.asked(
                Method::Post,
                "/v1/audio/transcriptions"@,
                BodyView::Form { wav: wav@, fields: transcription_form(model@, prompt@) },
            ),
            request.method == Method::Post,
            request.url@ == self.base_url@ + "/v1/audio/transcriptions"@,
            match (request.login, self.credentials) {
                (Some(login), Some(given)) => login.username@ == given.username@ && login.password@
                    == given.password@,
                (None, None) => true,
                _ => false,
            },
            request.body matches Body::Form { wav: sent, fields } && {
                &&& sent@ == wav@
                &&& fields@.len() == if is_blank(prompt@) {
                    2int
                } else {
                    3
                }
                &&& fields@[0].0@ == "model"@ && fields@[0].1@ == model@
                &&& fields@[1].0@ == "response_format"@ && fields@[1].1@ == "json"@
                &&& !is_blank(prompt@) ==> fields@[2].0@ == "prompt"@ && fields@[2].1@ == prompt@
            },
    {
        let mut fields: Vec<(&'static str, String)> = Vec::new();
        fields.push(("model", copy_text(model)));
        fields.push(("response_format", copy_text("json")));
        if !blank(prompt) {
            fields.push(("prompt", copy_text(prompt)));
        }
        proof {
            assert(fields_view(fields@) =~= transcription_form(model@, prompt@));
        }
        self.request(Method::Post, "/v1/audio/transcriptions", Body::Form { wav, fields })
    }

    /// Asks for a text to be made ready to be spoken: once, with the whole text,
    /// before it is cut.
    pub fn prepare_text(&self, text: &str, normalize: bool, narrate_tables: bool) -> (request:
        Request)
        ensures
            request@ == self.asked(
                Method::Post,
                "/text/prepare"@,
                BodyView::Prepare { text: text@, sanitize: true, normalize, narrate_tables },
            ),
            request.method == Method::Post,
            request.url@ == self.base_url@ + "/text/prepare"@,
            match (request.login, self.credentials) {
                (Some(login), Some(given)) => login.username@ == given.username@ && login.password@
                    == given.password@,
                (None, None) => true,
                _ => false,
            },
            request.body matches Body::Prepare(asked) && asked.text@ == text@ && asked.sanitize
                && asked.normalize == normalize && asked.narrate_tables == narrate_tables,
    {
        let asked = PrepareRequest {
            text: copy_text(text),
            sanitize: true,
            normalize,
            narrate_tables,
        };
        self.request(Method::Post, "/text/prepare", Body::Prepare(asked))
    }

    /// Asks for a text to be rewritten. The model is named where one is. What came
    /// of it, `rewritten` tells, and it does so of a request that failed too.
    pub fn rewrite_text(
        &self,
        text: &str,
        preset: &str,
        intensity: u8,
        model: Option<&str>,
    ) -> (request: Request)
        ensures
            request@ == self.asked(
                Method::Post,
                "/text/rewrite"@,
                BodyView::Rewrite {
                    text: text@,
                    preset: preset@,
                    intensity,
                    model: match optional_str(model) {
                        Some(name) => if is_blank(name) {
                            None
                        } else {
                            Some(name)
                        },
                        None => None,
                    },
                },
            ),
            request.method == Method::Post,
            request.url@ == self.base_url@ + "/text/rewrite"@,
            match (request.login, self.credentials) {
                (Some(login), Some(given)) => login.username@ == given.username@ && login.password@
                    == given.password@,
                (None, None) => true,
                _ => false,
            },
            request.body matches Body::Rewrite(asked) && {
                &&& asked.text@ == text@
                &&& asked.preset@ == preset@
                &&& asked.intensity == intensity
                &&& asked.model is Some <==> model is Some && !is_blank(model->0@)
                &&& asked.model matches Some(name) ==> name@ == model->0@
            },
    {
        let chosen = match model {
            Some(name) => if blank(name) {
                None
            } else {
                Some(copy_text(name))
            },
            None => None,
        };
        let asked = RewriteRequest {
            text: copy_text(text),
            preset: copy_text(preset),
            intensity,
            model: chosen,
        };
        self.request(Method::Post, "/text/rewrite", Body::Rewrite(asked))
    }

    /// Asks for a text to be spoken.
    pub fn speak(&self, text: &str, voice: &str, speed: Single) -> (request: Request)
        ensures
            request@ == self.asked(
                Method::Post,
                "/tts"@,
                BodyView::Tts { text: text@, voice: voice@, speed },
            ),
            request.method == Method::Post,
            request.url@ == self.base_url@ + "/tts"@,
            match (request.login, self.credentials) {
                (Some(login), Some(given)) => login.username@ == given.username@ && login.password@
                    == given.password@,
                (None, None) => true,
                _ => false,
            },
            request.body matches Body::Tts(asked) && asked.text@ == text@ && asked.voice@ == voice@
                && asked.speed == speed,
    {
        let asked = TtsRequest { text: copy_text(text), voice: copy_text(voice), speed };
        self.request(Method::Post, "/tts", Body::Tts(asked))
    }

    /// Asks for the audio of a text that was spoken.
    pub fn spoken(&self, meta: &TtsResponse) -> (request: Request)
        ensures
            request@ == self.asked(Method::Get, meta.url_path@, BodyView::Nothing),
            request.method == Method::Get,
            request.url@ == self.base_url@ + meta.url_path@,
            match (request.login, self.credentials) {
                (Some(login), Some(given)) => login.username@ == given.username@ && login.password@
                    == given.password@,
                (None, None) => true,
                _ => false,
            },
            request.body is Nothing,
    {
        self.request(Method::Get, meta.url_path.as_str(), Body::Nothing)
    }
}

/// What is asked for is asked for as it was meant: by the method and at the path that
/// were named, with what the request was to carry, and nothing else.
pub proof fn law_requests_are_as_asked(
    api: SpeechApi,
    method: Method,
    path: Seq<char>,
    body: BodyView,
)
    ensures
        api.asked(method, path, body).method == method,
        api.asked(method, path, body).url == api.base_url@ + path,
        api.asked(method, path, body).body == body,
        api.credentials is None <==> api.asked(method, path, body).login is None,
        api.credentials matches Some(given) ==> api.asked(method, path, body).login == Some(
            (given.username@, given.password@),
        ),
{
}

proof fn lemma_slashes(text: Seq<char>)
    ensures
        without_slashes(text).len() <= text.len(),
        without_slashes(text) == text.take(without_slashes(text).len() as int),
        without_slashes(text).len() > 0 ==> without_slashes(text).last() != '/',
        forall|i: int| without_slashes(text).len() <= i < text.len() ==> #[trigger] text[i] == '/',
    decreases text.len(),
{
    let kept = without_slashes(text);
    if text.len() > 0 && text.last() == '/' {
        let front = text.drop_last();
        lemma_slashes(front);
        assert(front.take(kept.len() as int) =~= text.take(kept.len() as int));
        assert forall|i: int| kept.len() <= i < text.len() implies #[trigger] text[i] == '/' by {
            if i < front.len() {
                assert(front[i] == text[i]);
            }
        }
    } else {
        assert(text.take(text.len() as int) =~= text);
    }
}

/// What a text reads as once it was to be rewritten: what the service made of it,
/// and the text itself where nothing came back.
pub open spec fn rewritten_text(text: Seq<char>, answer: Option<Seq<char>>) -> Seq<char> {
    match answer {
        Some(made) => made,
        None => text,
    }
}

/// What came of a text that was to be rewritten. It never fails: where nothing came
/// back, be it for the network or for the service, that is the text as it was, with
/// a report that nothing was applied.
pub fn rewritten(text: &str, outcome: Option<RewriteResult>) -> (result: RewriteResult)
    ensures
        result.text@ == rewritten_text(
            text@,
            match outcome {
                Some(made) => Some(made.text@),
                None => None,
            },
        ),
        outcome matches Some(made) ==> result == made,
        outcome is None ==> result.text@ == text@ && !result.rewritten.applied
            && result.rewritten.elapsed_ms == 0 && result.rewritten.error is None
            && result.rewritten.skipped is None,
{
    match outcome {
        Some(made) => made,
        None => RewriteResult {
            text: copy_text(text),
            rewritten: RewriteReport { applied: false, elapsed_ms: 0, error: None, skipped: None },
        },
    }
}

/// Whatever is asked for, the request goes to the address of the service and
/// carries the login of the service.
pub proof fn law_requests_go_to_the_service(
    api: SpeechApi,
    method: Method,
    path: Seq<char>,
    body: BodyView,
)
    ensures
        api.asked(method, path, body).login == login_view(api.credentials),
        starts_with(api.asked(method, path, body).url, api.base_url@),
{
    let url = api.asked(method, path, body).url;
    assert(url.take(api.base_url@.len() as int) =~= api.base_url@);
}

/// What is said of a status, given how the status is shown.
pub open spec fn complaint(status: u16, shown: Seq<char>) -> Option<Seq<char>> {
    if 200 <= status < 300 {
        None
    } else if status == 401 {
        Some(
            "a speech-api recusou a credencial (401). Confira VOX_API_USER e VOX_API_PASSWORD."@,
        )
    } else {
        Some("a speech-api respondeu "@ + shown)
    }
}

/// The service did what it was asked exactly where its status is one of the two
/// hundreds. Otherwise there is a complaint: for 401 one that names the two variables
/// of the login, and for any other status one that ends in how it is shown.
pub proof fn law_complaints(status: u16, shown: Seq<char>)
    ensures
        complaint(status, shown) is None <==> 200 <= status <= 299,
        complaint(status, shown) is Some && status != 401 ==> complaint(status, shown) == Some(
            "a speech-api respondeu "@ + shown,
        ),
        status == 401 ==> complaint(status, shown) == Some(
            "a speech-api recusou a credencial (401). Confira VOX_API_USER e VOX_API_PASSWORD."@,
        ),
{
}

/// Whether the service did what it was asked, given how its status is shown.
pub fn judge_status(status: u16, shown: &str) -> (verdict: Result<(), String>)
    ensures
        match verdict {
            Ok(()) => complaint(status, shown@) is None,
            Err(reason) => complaint(status, shown@) == Some(reason@),
        },
{
    if 200 <= status && status < 300 {
        return Ok(());
    }
    if status == 401 {
        return Err(
            copy_text(
                "a speech-api recusou a credencial (401). Confira VOX_API_USER e VOX_API_PASSWORD.",
            ),
        );
    }
    let mut reason = copy_text("a speech-api respondeu ");
    reason.append(shown);
    Err(reason)
}

/// Whether the service did what it was asked.
pub fn ensure_ok(status: u16) -> (verdict: Result<(), String>)
    requires
        100 <= status <= 999,
    ensures
        match verdict {
            Ok(()) => complaint(status, status_display(status)) is None,
            Err(reason) => complaint(status, status_display(status)) == Some(reason@),
        },
{
    let shown = show_status(status);
    judge_status(status, shown.as_str())
}

// ------------------------------------------------------------- cutting text

/// The characters that close a sentence.
pub open spec fn closes_sentence(c: char) -> bool {
    c == '.' || c == '!' || c == '?' || c == '…' || c == ';' || c == '\n'
}

/// What stands after the last character that closes a sentence.
pub open spec fn open_sentence(text: Seq<char>) -> Seq<char>
    decreases text.len(),
{
    if text.len() == 0 || closes_sentence(text.last()) {
        Seq::empty()
    } else {
        open_sentence(text.drop_last()).push(text.last())
    }
}

/// The list with the trimmed piece at its end, unless nothing is left of it.
pub open spec fn with_piece(list: Seq<Seq<char>>, piece: Seq<char>) -> Seq<Seq<char>> {
    if trim(piece).len() > 0 {
        list.push(trim(piece))
    } else {
        list
    }
}

/// The sentences that are closed, each with the character that closes it,
/// trimmed, the empty ones left out.
pub open spec fn closed_sentences(text: Seq<char>) -> Seq<Seq<char>>
    decreases text.len(),
{
    if text.len() == 0 {
        Seq::empty()
    } else if closes_sentence(text.last()) {
        with_piece(
            closed_sentences(text.drop_last()),
            open_sentence(text.drop_last()).push(text.last()),
        )
    } else {
        closed_sentences(text.drop_last())
    }
}

/// The sentences of a text, the last one closed or not.
pub open spec fn sentences(text: Seq<char>) -> Seq<Seq<char>> {
    with_piece(closed_sentences(text), open_sentence(text))
}

/// Chunks already closed, and the one being filled.
pub ghost struct Packing {
    pub chunks: Seq<Seq<char>>,
    pub current: Seq<char>,
}

/// How many characters the chunk at `index` aims at.
pub open spec fn chunk_budget(index: nat) -> nat {
    if index == 0 {
        FIRST_CHUNK_CHARS as nat
    } else {
        CHUNK_TARGET_CHARS as nat
    }
}

/// One more sentence. It goes to a chunk of its own where it would take the
/// chunk being filled over its budget, and otherwise after a space.
pub open spec fn pack_one(packing: Packing, sentence: Seq<char>) -> Packing {
    let Packing { chunks, current } = packing;
    if current.len() == 0 {
        Packing { chunks, current: sentence }
    } else if current.len() + sentence.len() > chunk_budget(chunks.len()) {
        Packing { chunks: chunks.push(current), current: sentence }
    } else {
        Packing { chunks, current: current + seq![' '] + sentence }
    }
}

/// All the sentences, packed in order.
pub open spec fn pack(sentences: Seq<Seq<char>>) -> Packing
    decreases sentences.len(),
{
    if sentences.len() == 0 {
        Packing { chunks: Seq::empty(), current: Seq::empty() }
    } else {
        pack_one(pack(sentences.drop_last()), sentences.last())
    }
}

/// The chunks of a packing, the one being filled at the end.
pub open spec fn packed_chunks(packing: Packing) -> Seq<Seq<char>> {
    if packing.current.len() > 0 {
        packing.chunks.push(packing.current)
    } else {
        packing.chunks
    }
}

/// The chunks in which a text is read aloud.
pub open spec fn reading_chunks(text: Seq<char>) -> Seq<Seq<char>> {
    packed_chunks(pack(sentences(squeezed(text))))
}

/// Does this character close a sentence?
fn ends_sentence(c: char) -> (ends: bool)
    ensures
        ends == closes_sentence(c),
{
    c == '.' || c == '!' || c == '?' || c == '…' || c == ';' || c == '\n'
}

/// The sentences of a text: cut after each of `.`, `!`, `?`, `…`, `;` and the
/// line break, trimmed, without the empty ones.
pub fn split_sentences(text: &str) -> (out: Vec<String>)
    ensures
        texts(out@) == sentences(text@),
{
    let chars = to_chars(text);
    let mut out: Vec<String> = Vec::new();
    let mut current: Vec<char> = Vec::new();
    let mut i: usize = 0;
    while i < chars.len()
        invariant
            i <= chars.len(),
            chars@ == text@,
            texts(out@) == closed_sentences(text@.take(i as int)),
            current@ == open_sentence(text@.take(i as int)),
        decreases chars.len() - i,
    {
        let c = chars[i];
        proof {
            assert(text@.take(i + 1).drop_last() =~= text@.take(i as int));
        }
        current.push(c);
        if ends_sentence(c) {
            let trimmed = trim_chars(current.as_slice());
            if trimmed.len() > 0 {
                let piece = to_text(trimmed.as_slice());
                proof {
                    lemma_texts_push(out@, piece);
                }
                out.push(piece);
            }
            current = Vec::new();
        }
        i = i + 1;
    }
    proof {
        assert(text@.take(text@.len() as int) =~= text@);
    }
    let trimmed = trim_chars(current.as_slice());
    if trimmed.len() > 0 {
        let piece = to_text(trimmed.as_slice());
        proof {
            lemma_texts_push(out@, piece);
        }
        out.push(piece);
    }
    out
}

/// Cuts the text into chunks that respect its punctuation.
///
/// The first comes out short so that the sound starts soon; the next ones grow,
/// since from there on what matters is to keep the queue full. A sentence longer
/// than the budget goes whole.
pub fn split_text(text: &str) -> (out: Vec<String>)
    ensures
        texts(out@) == reading_chunks(text@),
{
    let chars = to_chars(text);
    let cleaned = to_text(squeeze(chars.as_slice()).as_slice());
    let pieces = split_sentences(cleaned.as_str());
    let mut out: Vec<String> = Vec::new();
    let mut current: Vec<char> = Vec::new();
    let mut i: usize = 0;
    while i < pieces.len()
        invariant
            i <= pieces.len(),
            texts(pieces@) == sentences(squeezed(text@)),
            ({
                let packing = pack(sentences(squeezed(text@)).take(i as int));
                &&& texts(out@) == packing.chunks
                &&& current@ == packing.current
            }),
        decreases pieces.len() - i,
    {
        let ghost all = sentences(squeezed(text@));
        let sentence = to_chars(pieces[i].as_str());
        proof {
            assert(all.take(i + 1).drop_last() =~= all.take(i as int));
            assert(all[i as int] == sentence@);
        }
        let budget: usize = if out.len() == 0 {
            FIRST_CHUNK_CHARS
        } else {
            CHUNK_TARGET_CHARS
        };
        if current.len() > 0 {
            if current.len() > budget || sentence.len() > budget - current.len() {
                let chunk = to_text(current.as_slice());
                proof {
                    lemma_texts_push(out@, chunk);
                }
                out.push(chunk);
                current = sentence;
            } else {
                let ghost before = current@;
                current.push(' ');
                let mut j: usize = 0;
                while j < sentence.len()
                    invariant
                        j <= sentence.len(),
                        current@ == before + seq![' '] + sentence@.take(j as int),
                    decreases sentence.len() - j,
                {
                    current.push(sentence[j]);
                    j = j + 1;
                }
                proof {
                    assert(sentence@.take(sentence@.len() as int) =~= sentence@);
                }
            }
        } else {
            current = sentence;
        }
        i = i + 1;
    }
    proof {
        let all = sentences(squeezed(text@));
        assert(all.take(all.len() as int) =~= all);
    }
    if current.len() > 0 {
        let chunk = to_text(current.as_slice());
        proof {
            lemma_texts_push(out@, chunk);
        }
        out.push(chunk);
    }
    out
}

// ------------------------------------------------- what cutting text promises

/// The characters of a text that are not white space.
pub open spec fn visible(text: Seq<char>) -> Seq<char>
    decreases text.len(),
{
    if text.len() == 0 {
        Seq::empty()
    } else if is_white(text.last()) {
        visible(text.drop_last())
    } else {
        visible(text.drop_last()).push(text.last())
    }
}

proof fn lemma_visible_append(a: Seq<char>, b: Seq<char>)
    ensures
        visible(a + b) == visible(a) + visible(b),
    decreases b.len(),
{
    if b.len() == 0 {
        assert(a + b =~= a);
        assert(visible(a) + visible(b) =~= visible(a));
    } else {
        assert((a + b).drop_last() =~= a + b.drop_last());
        lemma_visible_append(a, b.drop_last());
        if !is_white(b.last()) {
            assert((visible(a) + visible(b.drop_last())).push(b.last()) =~= visible(a) + visible(b));
        }
    }
}

proof fn lemma_visible_white(text: Seq<char>)
    requires
        forall|i: int| 0 <= i < text.len() ==> is_white(#[trigger] text[i]),
    ensures
        visible(text) == Seq::<char>::empty(),
    decreases text.len(),
{
    if text.len() > 0 {
        lemma_visible_white(text.drop_last());
    }
}

proof fn lemma_visible_none(text: Seq<char>)
    requires
        visible(text).len() == 0,
    ensures
        is_blank(text),
    decreases text.len(),
{
    let from = lemma_trim(text);
    if !is_blank(text) {
        let last = from + trim(text).len() - 1;
        assert(text[last] == trim(text).last());
        let head = text.take(last + 1);
        lemma_visible_append(head, text.skip(last + 1));
        assert(head + text.skip(last + 1) =~= text);
        assert(head.last() == text[last]);
        assert(visible(head).len() > 0);
    }
}

proof fn lemma_visible_trim(text: Seq<char>)
    ensures
        visible(trim(text)) == visible(text),
{
    let from = lemma_trim(text);
    let to = from + trim(text).len();
    let head = text.take(from);
    let tail = text.skip(to);
    assert(text =~= head + trim(text) + tail);
    lemma_visible_append(head + trim(text), tail);
    lemma_visible_append(head, trim(text));
    assert forall|i: int| 0 <= i < tail.len() implies is_white(#[trigger] tail[i]) by {
        assert(tail[i] == text[to + i]);
    }
    lemma_visible_white(head);
    lemma_visible_white(tail);
    assert(visible(text) =~= visible(trim(text)));
}

proof fn lemma_visible_join_push(pieces: Seq<Seq<char>>, piece: Seq<char>)
    ensures
        visible(join(pieces.push(piece), seq![' '])) == visible(join(pieces, seq![' '])) + visible(
            piece,
        ),
{
    let space = seq![' '];
    let all = pieces.push(piece);
    assert(all.drop_last() =~= pieces);
    if pieces.len() == 0 {
        assert(visible(join(pieces, space)) + visible(piece) =~= visible(piece));
    } else {
        lemma_visible_append(join(pieces, space) + space, piece);
        lemma_visible_append(join(pieces, space), space);
        lemma_visible_white(space);
        assert(visible(join(pieces, space)) + visible(space) =~= visible(join(pieces, space)));
    }
}

proof fn lemma_visible_squeezed(text: Seq<char>)
    ensures
        visible(squeezed(text)) == visible(text),
        text.len() > 0 && !is_white(text.last()) ==> words(text).len() > 0,
    decreases text.len(),
{
    let space = seq![' '];
    if text.len() > 0 {
        let front = text.drop_last();
        let c = text.last();
        lemma_visible_squeezed(front);
        if !is_white(c) {
            let one = seq![c];
            assert(visible(one) =~= one) by {
                assert(one.drop_last() =~= Seq::<char>::empty());
                reveal_with_fuel(visible, 2);
            }
            assert(visible(text) =~= visible(front) + one);
            if text.len() == 1 || is_white(text[text.len() - 2]) {
                lemma_visible_join_push(words(front), one);
            } else {
                assert(front.last() == text[text.len() - 2]);
                let list = words(front);
                let rest = list.drop_last();
                assert(list =~= rest.push(list.last()));
                lemma_visible_join_push(rest, list.last());
                lemma_visible_join_push(rest, list.last().push(c));
                assert(list.last().push(c) =~= list.last() + one);
                lemma_visible_append(list.last(), one);
                assert(visible(squeezed(text)) =~= visible(squeezed(front)) + one);
            }
        }
    }
}

proof fn lemma_visible_with_piece(list: Seq<Seq<char>>, piece: Seq<char>)
    ensures
        visible(join(with_piece(list, piece), seq![' '])) == visible(join(list, seq![' ']))
            + visible(piece),
{
    lemma_visible_trim(piece);
    if trim(piece).len() > 0 {
        lemma_visible_join_push(list, trim(piece));
    } else {
        assert(visible(join(list, seq![' '])) + visible(piece) =~= visible(join(list, seq![' '])));
    }
}

proof fn lemma_visible_closed(text: Seq<char>)
    ensures
        visible(join(closed_sentences(text), seq![' '])) + visible(open_sentence(text)) == visible(
            text,
        ),
    decreases text.len(),
{
    let space = seq![' '];
    if text.len() == 0 {
        assert(visible(join(closed_sentences(text), space)) + visible(open_sentence(text))
            =~= visible(text));
    } else {
        let front = text.drop_last();
        let one = seq![text.last()];
        lemma_visible_closed(front);
        assert(text =~= front + one);
        lemma_visible_append(front, one);
        assert(open_sentence(front).push(text.last()) =~= open_sentence(front) + one);
        lemma_visible_append(open_sentence(front), one);
        if closes_sentence(text.last()) {
            lemma_visible_with_piece(
                closed_sentences(front),
                open_sentence(front).push(text.last()),
            );
        }
        assert(visible(join(closed_sentences(text), space)) + visible(open_sentence(text))
            =~= visible(join(closed_sentences(front), space)) + visible(open_sentence(front))
            + visible(one));
    }
}

proof fn lemma_sentences_shape(text: Seq<char>)
    ensures
        forall|i: int|
            0 <= i < closed_sentences(text).len() ==> (#[trigger] closed_sentences(text)[i]).len()
                > 0,
        forall|i: int| 0 <= i < sentences(text).len() ==> (#[trigger] sentences(text)[i]).len() > 0,
    decreases text.len(),
{
    if text.len() > 0 {
        let front = text.drop_last();
        lemma_sentences_shape(front);
        if closes_sentence(text.last()) {
            lemma_with_piece_shape(
                closed_sentences(front),
                open_sentence(front).push(text.last()),
            );
        }
    }
    lemma_with_piece_shape(closed_sentences(text), open_sentence(text));
}

proof fn lemma_with_piece_shape(list: Seq<Seq<char>>, piece: Seq<char>)
    requires
        forall|i: int| 0 <= i < list.len() ==> (#[trigger] list[i]).len() > 0,
    ensures
        forall|i: int|
            0 <= i < with_piece(list, piece).len() ==> (#[trigger] with_piece(list, piece)[i]).len()
                > 0,
{
}

proof fn lemma_join_one_more(pieces: Seq<Seq<char>>, piece: Seq<char>)
    requires
        pieces.len() > 0,
    ensures
        join(pieces.push(piece), seq![' ']) == join(pieces, seq![' ']) + seq![' '] + piece,
{
    assert(pieces.push(piece).drop_last() =~= pieces);
}

proof fn lemma_pack(all: Seq<Seq<char>>)
    requires
        forall|i: int| 0 <= i < all.len() ==> (#[trigger] all[i]).len() > 0,
    ensures
        all.len() > 0 ==> pack(all).current.len() > 0,
        join(packed_chunks(pack(all)), seq![' ']) == join(all, seq![' ']),
        forall|i: int|
            0 <= i < packed_chunks(pack(all)).len() ==> {
                let chunk = #[trigger] packed_chunks(pack(all))[i];
                chunk.len() > 0 && (chunk.len() <= chunk_budget(i as nat) + 1 || all.contains(
                    chunk,
                ))
            },
    decreases all.len(),
{
    let space = seq![' '];
    if all.len() > 0 {
        let front = all.drop_last();
        let sentence = all.last();
        assert forall|i: int| 0 <= i < front.len() implies (#[trigger] front[i]).len() > 0 by {
            assert(front[i] == all[i]);
        }
        lemma_pack(front);
        let before = pack(front);
        let after = pack(all);
        let shown = packed_chunks(before);
        assert(all =~= front.push(sentence));
        assert(all[all.len() - 1] == sentence);
        if front.len() == 0 {
            assert(packed_chunks(after) =~= seq![sentence]);
        } else {
            lemma_join_one_more(front, sentence);
            let joined = join(before.chunks, space);
            if after.chunks.len() > before.chunks.len() {
                assert(packed_chunks(after) =~= shown.push(sentence));
                lemma_join_one_more(shown, sentence);
            } else {
                let longer = before.current + space + sentence;
                assert(packed_chunks(after) =~= before.chunks.push(longer));
                assert(shown.drop_last() =~= before.chunks);
                assert(packed_chunks(after).drop_last() =~= before.chunks);
                if before.chunks.len() > 0 {
                    assert(joined + space + longer =~= (joined + space + before.current) + space
                        + sentence);
                } else {
                    assert(join(shown, space) =~= before.current);
                }
            }
        }
        assert forall|i: int| 0 <= i < packed_chunks(after).len() implies {
            let chunk = #[trigger] packed_chunks(after)[i];
            chunk.len() > 0 && (chunk.len() <= chunk_budget(i as nat) + 1 || all.contains(chunk))
        } by {
            let chunk = packed_chunks(after)[i];
            if i < after.chunks.len() {
                assert(chunk == shown[i]);
                if front.contains(chunk) {
                    let k = choose|k: int| 0 <= k < front.len() && front[k] == chunk;
                    assert(all[k] == chunk);
                }
            } else if chunk == sentence {
                assert(all[all.len() - 1] == chunk);
            }
        }
    }
}

/// Cutting a text loses nothing that is said: read one after the other, the
/// chunks hold the visible characters of the text, all of them and in order.
pub proof fn law_chunks_keep_the_text(text: Seq<char>)
    ensures
        visible(join(reading_chunks(text), seq![' '])) == visible(text),
{
    let cleaned = squeezed(text);
    lemma_sentences_shape(cleaned);
    lemma_pack(sentences(cleaned));
    lemma_visible_with_piece(closed_sentences(cleaned), open_sentence(cleaned));
    lemma_visible_closed(cleaned);
    lemma_visible_squeezed(text);
}

/// Whether each chunk is a run of pieces, one or more, with a space between each
/// two, and the runs one after the other are all the pieces.
pub open spec fn made_of(chunks: Seq<Seq<char>>, pieces: Seq<Seq<char>>) -> bool
    decreases chunks.len(),
{
    if chunks.len() == 0 {
        pieces.len() == 0
    } else {
        exists|from: int|
            0 <= from < pieces.len() && chunks.last() == join(#[trigger] pieces.skip(from), seq![
                ' ',
            ]) && made_of(chunks.drop_last(), pieces.take(from))
    }
}

/// Where the run of the chunk being filled begins.
proof fn lemma_runs(all: Seq<Seq<char>>) -> (from: int)
    requires
        forall|i: int| 0 <= i < all.len() ==> (#[trigger] all[i]).len() > 0,
    ensures
        0 <= from <= all.len(),
        all.len() > 0 ==> from < all.len(),
        made_of(pack(all).chunks, all.take(from)),
        pack(all).current == join(all.skip(from), seq![' ']),
    decreases all.len(),
{
    let space = seq![' '];
    if all.len() == 0 {
        assert(all.skip(0) =~= all);
        0
    } else {
        let front = all.drop_last();
        let sentence = all.last();
        assert forall|i: int| 0 <= i < front.len() implies (#[trigger] front[i]).len() > 0 by {
            assert(front[i] == all[i]);
        }
        let from = lemma_runs(front);
        lemma_pack(front);
        let before = pack(front);
        if before.current.len() == 0 {
            assert(all.take(0) =~= front.take(0));
            assert(all.skip(0).drop_last() =~= Seq::<Seq<char>>::empty());
            0
        } else if pack(all).chunks.len() > before.chunks.len() {
            let last = all.len() - 1;
            let chunks = before.chunks.push(before.current);
            assert(all.take(last) =~= front);
            assert(chunks.drop_last() =~= before.chunks);
            assert(made_of(chunks, front)) by {
                assert(chunks.last() == join(front.skip(from), space));
            }
            assert(all.skip(last) =~= seq![sentence]);
            assert(seq![sentence].drop_last() =~= Seq::<Seq<char>>::empty());
            last
        } else {
            assert(all.take(from) =~= front.take(from));
            assert(all.skip(from) =~= front.skip(from).push(sentence));
            lemma_join_one_more(front.skip(from), sentence);
            from
        }
    }
}

/// No sentence is cut and none is lost: each chunk is whole sentences, in order.
pub proof fn law_chunks_are_whole_sentences(text: Seq<char>)
    ensures
        made_of(reading_chunks(text), sentences(squeezed(text))),
{
    let all = sentences(squeezed(text));
    lemma_sentences_shape(squeezed(text));
    lemma_pack(all);
    let from = lemma_runs(all);
    let packing = pack(all);
    if packing.current.len() > 0 {
        let chunks = reading_chunks(text);
        assert(chunks.drop_last() =~= packing.chunks);
        assert(chunks.last() == join(all.skip(from), seq![' ']));
    }
}

/// The first chunk is short, and the next ones are bounded too: a chunk holds
/// its budget and the space before its last sentence, or it is one sentence that
/// is longer than that. No chunk is empty.
pub proof fn law_chunks_are_short(text: Seq<char>, i: int)
    requires
        0 <= i < reading_chunks(text).len(),
    ensures
        reading_chunks(text)[i].len() > 0,
        reading_chunks(text)[i].len() <= if i == 0 {
            91int
        } else {
            221
        } || sentences(squeezed(text)).contains(reading_chunks(text)[i]),
{
    lemma_sentences_shape(squeezed(text));
    lemma_pack(sentences(squeezed(text)));
}

/// There is nothing to read exactly where the text is blank.
pub proof fn law_no_chunks_of_blank_text(text: Seq<char>)
    ensures
        reading_chunks(text).len() == 0 <==> is_blank(text),
{
    law_chunks_keep_the_text(text);
    lemma_sentences_shape(squeezed(text));
    lemma_pack(sentences(squeezed(text)));
    let chunks = reading_chunks(text);
    if chunks.len() == 0 {
        lemma_visible_none(text);
    }
    if is_blank(text) {
        let from = lemma_trim(text);
        lemma_visible_white(text);
        if chunks.len() > 0 {
            let chunk = chunks.last();
            assert(chunk.len() > 0);
            lemma_chunk_visible(text);
        }
    }
}

/// What is read aloud has a visible character.
proof fn lemma_chunk_visible(text: Seq<char>)
    requires
        reading_chunks(text).len() > 0,
    ensures
        visible(join(reading_chunks(text), seq![' '])).len() > 0,
{
    let all = sentences(squeezed(text));
    lemma_sentences_shape(squeezed(text));
    lemma_pack(all);
    let front = all.drop_last();
    assert(all =~= front.push(all.last()));
    lemma_visible_join_push(front, all.last());
    lemma_sentence_visible(squeezed(text));
}

/// The last sentence has a visible character.
proof fn lemma_sentence_visible(text: Seq<char>)
    requires
        sentences(text).len() > 0,
    ensures
        visible(sentences(text).last()).len() > 0,
{
    lemma_last_visible(closed_sentences(text), open_sentence(text));
    if trim(open_sentence(text)).len() == 0 {
        lemma_closed_visible(text);
    }
}

proof fn lemma_closed_visible(text: Seq<char>)
    requires
        closed_sentences(text).len() > 0,
    ensures
        visible(closed_sentences(text).last()).len() > 0,
    decreases text.len(),
{
    let front = text.drop_last();
    if closes_sentence(text.last()) {
        let piece = open_sentence(front).push(text.last());
        lemma_last_visible(closed_sentences(front), piece);
        if trim(piece).len() == 0 {
            lemma_closed_visible(front);
        }
    } else {
        lemma_closed_visible(front);
    }
}

proof fn lemma_last_visible(list: Seq<Seq<char>>, piece: Seq<char>)
    ensures
        trim(piece).len() > 0 ==> visible(with_piece(list, piece).last()).len() > 0,
{
    let from = lemma_trim(piece);
}

// ------------------------------------------------------- cutting what was cut

/// Is white space in this text only ever one space at a time?
spec fn single_spaced(text: Seq<char>) -> bool {
    &&& forall|i: int| 0 <= i < text.len() && is_white(#[trigger] text[i]) ==> text[i] == ' '
    &&& forall|i: int, j: int|
        0 <= i && j == i + 1 && j < text.len() ==> !(is_white(#[trigger] text[i]) && is_white(
            #[trigger] text[j],
        ))
}

/// Is there also none around it?
spec fn tidy(text: Seq<char>) -> bool {
    &&& single_spaced(text)
    &&& text.len() > 0 ==> !is_white(text[0]) && !is_white(text.last())
}

proof fn lemma_part_single_spaced(text: Seq<char>, from: int, to: int)
    requires
        single_spaced(text),
        0 <= from <= to <= text.len(),
    ensures
        single_spaced(text.subrange(from, to)),
{
    let part = text.subrange(from, to);
    assert forall|i: int| 0 <= i < part.len() && is_white(#[trigger] part[i]) implies part[i]
        == ' ' by {
        assert(part[i] == text[from + i]);
    }
    assert forall|i: int, j: int| 0 <= i && j == i + 1 && j < part.len() implies !(is_white(
        #[trigger] part[i],
    ) && is_white(#[trigger] part[j])) by {
        assert(part[i] == text[from + i]);
        assert(part[j] == text[from + j]);
    }
}

/// A tidy text, a space and another tidy text make a tidy text.
proof fn lemma_tidy_pair(a: Seq<char>, b: Seq<char>)
    requires
        tidy(a),
        tidy(b),
        a.len() > 0,
        b.len() > 0,
    ensures
        tidy(a + seq![' '] + b),
{
    let both = a + seq![' '] + b;
    let n = a.len() as int;
    assert forall|i: int| 0 <= i < both.len() && is_white(#[trigger] both[i]) implies both[i]
        == ' ' by {
        if i < n {
            assert(both[i] == a[i]);
        } else if i > n {
            assert(both[i] == b[i - n - 1]);
        }
    }
    assert forall|i: int, j: int| 0 <= i && j == i + 1 && j < both.len() implies !(is_white(
        #[trigger] both[i],
    ) && is_white(#[trigger] both[j])) by {
        if j < n {
            assert(both[i] == a[i] && both[j] == a[j]);
        } else if j == n {
            assert(both[i] == a.last());
        } else if i == n {
            assert(both[j] == b[0]);
        } else {
            assert(both[i] == b[i - n - 1] && both[j] == b[j - n - 1]);
        }
    }
    assert(both[0] == a[0]);
    assert(both.last() == b.last());
}

proof fn lemma_tidy_join(pieces: Seq<Seq<char>>)
    requires
        forall|i: int| 0 <= i < pieces.len() ==> tidy(#[trigger] pieces[i]) && pieces[i].len() > 0,
    ensures
        tidy(join(pieces, seq![' '])),
        pieces.len() > 0 ==> join(pieces, seq![' ']).len() > 0,
    decreases pieces.len(),
{
    if pieces.len() == 1 {
        assert(tidy(pieces[0]));
    } else if pieces.len() > 1 {
        let front = pieces.drop_last();
        assert forall|i: int| 0 <= i < front.len() implies tidy(#[trigger] front[i])
            && front[i].len() > 0 by {
            assert(front[i] == pieces[i]);
        }
        lemma_tidy_join(front);
        assert(tidy(pieces[pieces.len() - 1]));
        lemma_tidy_pair(join(front, seq![' ']), pieces.last());
    }
}

/// There is no white space in a word.
proof fn lemma_words_visible(text: Seq<char>)
    ensures
        forall|i: int, k: int|
            0 <= i < words(text).len() && 0 <= k < words(text)[i].len() ==> !is_white(
                #[trigger] words(text)[i][k],
            ),
    decreases text.len(),
{
    if text.len() > 0 {
        let front = text.drop_last();
        let c = text.last();
        let before = words(front);
        let list = words(text);
        lemma_words_visible(front);
        lemma_words_shape(front);
        if !is_white(c) {
            let opens = text.len() == 1 || is_white(text[text.len() - 2]);
            if !opens {
                assert(front.last() == text[text.len() - 2]);
            }
            assert forall|i: int, k: int| 0 <= i < list.len() && 0 <= k < list[i].len() implies
                !is_white(#[trigger] list[i][k]) by {
                if i < list.len() - 1 {
                    assert(list[i] == before[i]);
                    assert(!is_white(before[i][k]));
                } else if !opens {
                    assert(list[i] == before.last().push(c));
                    if k < before.last().len() {
                        assert(list[i][k] == before[before.len() - 1][k]);
                    }
                }
            }
        }
    }
}

/// What is squeezed is tidy.
proof fn lemma_squeezed_is_tidy(text: Seq<char>)
    ensures
        tidy(squeezed(text)),
{
    let list = words(text);
    lemma_words_shape(text);
    lemma_words_visible(text);
    assert forall|i: int| 0 <= i < list.len() implies tidy(#[trigger] list[i]) && list[i].len()
        > 0 by {
        let word = list[i];
        assert forall|k: int| 0 <= k < word.len() implies !is_white(#[trigger] word[k]) by {
            assert(!is_white(list[i][k]));
        }
    }
    lemma_tidy_join(list);
}

/// Squeezing takes from a text that begins with no white space, and has it only
/// one space at a time, the space at its end.
proof fn lemma_squeeze_single_spaced(text: Seq<char>)
    requires
        single_spaced(text),
        text.len() > 0 ==> !is_white(text[0]),
    ensures
        squeezed(text) == if text.len() > 0 && is_white(text.last()) {
            text.drop_last()
        } else {
            text
        },
    decreases text.len(),
{
    let space = seq![' '];
    if text.len() > 0 {
        let front = text.drop_last();
        let c = text.last();
        assert(front =~= text.subrange(0, text.len() - 1));
        lemma_part_single_spaced(text, 0, text.len() - 1);
        lemma_squeeze_single_spaced(front);
        lemma_words_shape(front);
        if front.len() > 0 {
            assert(front.last() == text[text.len() - 2]);
            assert(text[text.len() - 1] == c);
        }
        if is_white(c) {
            assert(squeezed(text) == squeezed(front));
        } else if front.len() == 0 {
            assert(words(text) =~= seq![seq![c]]);
            assert(squeezed(text) =~= text);
        } else if is_white(front.last()) {
            let rest = front.drop_last();
            assert(front.len() > 1);
            assert(rest.last() == front[front.len() - 2]);
            assert(front[front.len() - 1] == front.last());
            assert(words(front) == words(rest));
            lemma_words_shape(rest);
            lemma_join_one_more(words(front), seq![c]);
            assert(front[front.len() - 1] == ' ');
            assert(rest + space + seq![c] =~= text);
        } else {
            lemma_join_extends(words(front), space, c);
            assert(front.push(c) =~= text);
        }
    }
}

/// A sentence with no white space around it is what trimming leaves of it, also
/// with a space in front.
proof fn lemma_trim_sentence(piece: Seq<char>)
    requires
        piece.len() > 0,
        !is_white(piece[0]),
        !is_white(piece.last()),
    ensures
        trim(piece) == piece,
        trim(seq![' '] + piece) == piece,
{
    let from = lemma_trim(piece);
    let to = from + trim(piece).len();
    assert(from == 0) by {
        if from > 0 {
            assert(is_white(piece[0]));
        }
    }
    assert(to == piece.len()) by {
        if to < piece.len() {
            assert(is_white(piece[piece.len() - 1]));
        }
    }
    assert(trim(piece) =~= piece);
    let led = seq![' '] + piece;
    let start = lemma_trim(led);
    let end = start + trim(led).len();
    assert(led[1] == piece[0]);
    assert(led[led.len() - 1] == piece.last());
    assert(start == 1) by {
        if start > 1 {
            assert(is_white(led[1]));
        }
        if start == 0 {
            assert(!is_blank(led));
            assert(trim(led)[0] == led[0]);
        }
    }
    assert(end == led.len()) by {
        if end < led.len() {
            assert(is_white(led[led.len() - 1]));
        }
    }
    assert(trim(led) =~= piece);
}

/// Is this a sentence as they are cut: something tidy that nothing closes before
/// its end?
spec fn is_sentence(piece: Seq<char>) -> bool {
    &&& piece.len() > 0
    &&& tidy(piece)
    &&& forall|k: int| 0 <= k < piece.len() - 1 ==> !closes_sentence(#[trigger] piece[k])
}

/// Are these sentences as they are cut, each but the last one closed?
spec fn are_sentences(list: Seq<Seq<char>>) -> bool {
    &&& forall|i: int| 0 <= i < list.len() ==> is_sentence(#[trigger] list[i])
    &&& forall|i: int| 0 <= i < list.len() - 1 ==> closes_sentence((#[trigger] list[i]).last())
}

/// What no character closes is added to the sentence that is open.
proof fn lemma_still_open(text: Seq<char>, more: Seq<char>)
    requires
        forall|k: int| 0 <= k < more.len() ==> !closes_sentence(#[trigger] more[k]),
    ensures
        closed_sentences(text + more) == closed_sentences(text),
        open_sentence(text + more) == open_sentence(text) + more,
    decreases more.len(),
{
    if more.len() == 0 {
        assert(text + more =~= text);
        assert(open_sentence(text) + more =~= open_sentence(text));
    } else {
        let front = more.drop_last();
        assert forall|k: int| 0 <= k < front.len() implies !closes_sentence(#[trigger] front[k]) by {
            assert(front[k] == more[k]);
        }
        lemma_still_open(text, front);
        assert((text + more).drop_last() =~= text + front);
        assert(!closes_sentence(more[more.len() - 1]));
        assert(open_sentence(text) + more =~= (open_sentence(text) + front).push(more.last()));
    }
}

/// A sentence more, after a text whose sentences are all closed.
proof fn lemma_one_more_sentence(text: Seq<char>, lead: Seq<char>, piece: Seq<char>)
    requires
        open_sentence(text).len() == 0,
        lead.len() == 0 || lead == seq![' '],
        is_sentence(piece),
    ensures
        closes_sentence(piece.last()) ==> closed_sentences(text + lead + piece)
            == closed_sentences(text).push(piece) && open_sentence(text + lead + piece).len() == 0,
        !closes_sentence(piece.last()) ==> closed_sentences(text + lead + piece)
            == closed_sentences(text) && trim(open_sentence(text + lead + piece)) == piece,
{
    let all = text + lead + piece;
    let whole = lead + piece;
    let body = lead + piece.drop_last();
    assert(open_sentence(text) + whole =~= whole);
    lemma_trim_sentence(piece);
    assert(trim(whole) == piece) by {
        if lead.len() == 0 {
            assert(whole =~= piece);
        }
    }
    assert forall|k: int| 0 <= k < body.len() implies !closes_sentence(#[trigger] body[k]) by {
        if k >= lead.len() {
            assert(body[k] == piece[k - lead.len()]);
        }
    }
    lemma_still_open(text, body);
    assert(all.drop_last() =~= text + body);
    assert(all.last() == piece.last());
    assert((open_sentence(text) + body).push(piece.last()) =~= whole);
}

/// Sentences that are joined are cut where they were joined.
proof fn lemma_cut_where_joined(list: Seq<Seq<char>>)
    requires
        are_sentences(list),
    ensures
        sentences(join(list, seq![' '])) == list,
        list.len() > 0 && closes_sentence(list.last().last()) ==> closed_sentences(
            join(list, seq![' ']),
        ) == list && open_sentence(join(list, seq![' '])).len() == 0,
    decreases list.len(),
{
    let space = seq![' '];
    let all = join(list, space);
    if list.len() == 0 {
        assert(sentences(all) =~= list);
    } else {
        let front = list.drop_last();
        let piece = list.last();
        assert(is_sentence(list[list.len() - 1]));
        assert(front.push(piece) =~= list);
        if front.len() == 0 {
            let none = Seq::<char>::empty();
            lemma_one_more_sentence(none, none, piece);
            assert(none + none + piece =~= piece);
            assert(closed_sentences(none) =~= front);
        } else {
            assert forall|i: int| 0 <= i < front.len() implies is_sentence(#[trigger] front[i]) by {
                assert(front[i] == list[i]);
            }
            assert forall|i: int| 0 <= i < front.len() - 1 implies closes_sentence(
                (#[trigger] front[i]).last(),
            ) by {
                assert(front[i] == list[i]);
            }
            assert(closes_sentence(list[list.len() - 2].last()));
            assert(front.last() == list[list.len() - 2]);
            lemma_cut_where_joined(front);
            lemma_one_more_sentence(join(front, space), space, piece);
        }
    }
}

/// The sentence that is open is the end of the text, and nothing closes it.
proof fn lemma_open_is_the_end(text: Seq<char>)
    ensures
        open_sentence(text).len() <= text.len(),
        open_sentence(text) == text.skip(text.len() - open_sentence(text).len()),
        forall|k: int|
            0 <= k < open_sentence(text).len() ==> !closes_sentence(
                #[trigger] open_sentence(text)[k],
            ),
    decreases text.len(),
{
    let open = open_sentence(text);
    if text.len() > 0 && !closes_sentence(text.last()) {
        lemma_open_is_the_end(text.drop_last());
        assert(open =~= text.skip(text.len() - open.len()));
    } else {
        assert(open =~= text.skip(text.len() as int));
    }
}

/// What trimming leaves of a piece that nothing closes before its end is a
/// sentence.
proof fn lemma_trimmed_is_sentence(piece: Seq<char>)
    requires
        single_spaced(piece),
        trim(piece).len() > 0,
        forall|k: int| 0 <= k < piece.len() - 1 ==> !closes_sentence(#[trigger] piece[k]),
    ensures
        is_sentence(trim(piece)),
        !is_white(piece.last()) ==> trim(piece).last() == piece.last(),
{
    let from = lemma_trim(piece);
    let to = from + trim(piece).len();
    let kept = trim(piece);
    lemma_part_single_spaced(piece, from, to);
    assert forall|k: int| 0 <= k < kept.len() - 1 implies !closes_sentence(#[trigger] kept[k]) by {
        assert(kept[k] == piece[from + k]);
    }
    if !is_white(piece.last()) {
        if to < piece.len() {
            assert(is_white(piece[piece.len() - 1]));
        }
    }
}

/// The sentences of a text that is single spaced are sentences as they are cut.
proof fn lemma_cut_sentences(text: Seq<char>)
    requires
        single_spaced(text),
    ensures
        are_sentences(sentences(text)),
        are_sentences(closed_sentences(text)),
        closed_sentences(text).len() > 0 ==> closes_sentence(closed_sentences(text).last().last()),
    decreases text.len(),
{
    lemma_open_is_the_end(text);
    if text.len() > 0 {
        let front = text.drop_last();
        let c = text.last();
        assert(front =~= text.subrange(0, text.len() - 1));
        lemma_part_single_spaced(text, 0, text.len() - 1);
        lemma_cut_sentences(front);
        if closes_sentence(c) {
            lemma_open_is_the_end(front);
            let piece = open_sentence(front).push(c);
            let at = text.len() - piece.len();
            assert(piece =~= text.subrange(at, text.len() as int));
            lemma_part_single_spaced(text, at, text.len() as int);
            assert(text[text.len() - 1] == c);
            assert(!is_white(c));
            let from = lemma_trim(piece);
            assert(trim(piece).len() > 0) by {
                if is_blank(piece) {
                    assert(is_white(piece[piece.len() - 1]));
                }
            }
            assert forall|k: int| 0 <= k < piece.len() - 1 implies !closes_sentence(
                #[trigger] piece[k],
            ) by {
                assert(piece[k] == open_sentence(front)[k]);
            }
            lemma_trimmed_is_sentence(piece);
            lemma_one_more_cut(closed_sentences(front), trim(piece));
        }
    }
    let open = open_sentence(text);
    if trim(open).len() > 0 {
        assert(open =~= text.subrange(text.len() - open.len(), text.len() as int));
        lemma_part_single_spaced(text, text.len() - open.len(), text.len() as int);
        lemma_trimmed_is_sentence(open);
        lemma_one_more_cut(closed_sentences(text), trim(open));
    }
}

proof fn lemma_one_more_cut(list: Seq<Seq<char>>, piece: Seq<char>)
    requires
        are_sentences(list),
        list.len() > 0 ==> closes_sentence(list.last().last()),
        is_sentence(piece),
    ensures
        are_sentences(list.push(piece)),
{
    let longer = list.push(piece);
    assert forall|i: int| 0 <= i < longer.len() implies is_sentence(#[trigger] longer[i]) by {
        if i < list.len() {
            assert(longer[i] == list[i]);
        }
    }
    assert forall|i: int| 0 <= i < longer.len() - 1 implies closes_sentence(
        (#[trigger] longer[i]).last(),
    ) by {
        assert(longer[i] == list[i]);
    }
}

/// How a text is cut depends on its words alone: texts that differ only in the
/// white space between their words are read in the same chunks.
pub proof fn law_chunks_depend_on_the_words(a: Seq<char>, b: Seq<char>)
    requires
        words(a) == words(b),
    ensures
        reading_chunks(a) == reading_chunks(b),
{
}

/// Cutting what was cut changes nothing: the chunks, joined by a space, are cut
/// into the same chunks again.
pub proof fn law_cutting_again_changes_nothing(text: Seq<char>)
    ensures
        reading_chunks(join(reading_chunks(text), seq![' '])) == reading_chunks(text),
{
    let space = seq![' '];
    let cleaned = squeezed(text);
    let list = sentences(cleaned);
    let all = join(list, space);
    lemma_squeezed_is_tidy(text);
    lemma_cut_sentences(cleaned);
    lemma_sentences_shape(cleaned);
    lemma_pack(list);
    assert(join(reading_chunks(text), space) == all);
    assert forall|i: int| 0 <= i < list.len() implies tidy(#[trigger] list[i]) && list[i].len()
        > 0 by {
        assert(is_sentence(list[i]));
    }
    lemma_tidy_join(list);
    lemma_squeeze_single_spaced(all);
    lemma_cut_where_joined(list);
}

/// What ends a sentence: one of `.`, `!`, `?`, `…`, `;` and the line break. These are
/// all that do, so nothing else is ever cut at: a text that holds none of them before
/// its last character, and no white space but single spaces, is read in one chunk as
/// it is, however long.
pub proof fn law_nothing_else_is_cut_at(text: Seq<char>)
    requires
        text.len() > 0,
        !is_white(text[0]),
        !is_white(text.last()),
        forall|i: int| 0 <= i < text.len() && is_white(#[trigger] text[i]) ==> text[i] == ' ',
        forall|i: int, j: int|
            0 <= i && j == i + 1 && j < text.len() ==> !(is_white(#[trigger] text[i]) && is_white(
                #[trigger] text[j],
            )),
        forall|i: int|
            0 <= i < text.len() - 1 ==> (#[trigger] text[i]) != '.' && text[i] != '!' && text[i]
                != '?' && text[i] != '…' && text[i] != ';' && text[i] != '\n',
    ensures
        reading_chunks(text) == seq![text],
        sentences(text) == seq![text],
{
    let one = seq![text];
    lemma_squeeze_single_spaced(text);
    assert(is_sentence(one[0]));
    lemma_cut_where_joined(one);
    assert(join(one, seq![' ']) == text);
    assert(one.drop_last() =~= Seq::<Seq<char>>::empty());
    reveal_with_fuel(pack, 2);
    assert(packed_chunks(pack(one)) =~= one);
}

/// Every sentence ends where one of those characters stands: none holds one of them
/// before its last character, and each but the last one ends in one. None is empty
/// and none has white space around it.
pub proof fn law_sentences_end_where_they_should(text: Seq<char>)
    ensures
        forall|i: int, k: int|
            0 <= i < sentences(squeezed(text)).len() && 0 <= k < sentences(
                squeezed(text),
            )[i].len() - 1 ==> {
                let c = #[trigger] sentences(squeezed(text))[i][k];
                c != '.' && c != '!' && c != '?' && c != '…' && c != ';' && c != '\n'
            },
        forall|i: int|
            0 <= i < sentences(squeezed(text)).len() - 1 ==> {
                let c = (#[trigger] sentences(squeezed(text))[i]).last();
                c == '.' || c == '!' || c == '?' || c == '…' || c == ';'
            },
        forall|i: int|
            0 <= i < sentences(squeezed(text)).len() ==> {
                let sentence = #[trigger] sentences(squeezed(text))[i];
                sentence.len() > 0 && !is_white(sentence[0]) && !is_white(sentence.last())
            },
{
    let cleaned = squeezed(text);
    let list = sentences(cleaned);
    lemma_squeezed_is_tidy(text);
    lemma_cut_sentences(cleaned);
    assert forall|i: int, k: int| 0 <= i < list.len() && 0 <= k < list[i].len() - 1 implies {
        let c = #[trigger] list[i][k];
        c != '.' && c != '!' && c != '?' && c != '…' && c != ';' && c != '\n'
    } by {
        assert(is_sentence(list[i]));
        let sentence = list[i];
        assert(!closes_sentence(sentence[k]));
    }
    assert forall|i: int| 0 <= i < list.len() - 1 implies {
        let c = (#[trigger] list[i]).last();
        c == '.' || c == '!' || c == '?' || c == '…' || c == ';'
    } by {
        assert(closes_sentence(list[i].last()));
        assert(is_sentence(list[i]));
        assert(!is_white(list[i].last()));
    }
    assert forall|i: int| 0 <= i < list.len() implies {
        let sentence = #[trigger] list[i];
        sentence.len() > 0 && !is_white(sentence[0]) && !is_white(sentence.last())
    } by {
        assert(is_sentence(list[i]));
    }
}

/// Whatever the text, the sentences hold its visible characters, all of them and in
/// order, and none is cut short: none holds a character that ends a sentence before
/// its last one.
pub proof fn law_sentences_keep_the_text(text: Seq<char>)
    ensures
        visible(join(sentences(text), seq![' '])) == visible(text),
        forall|i: int, k: int|
            0 <= i < sentences(text).len() && 0 <= k < sentences(text)[i].len() - 1 ==> {
                let c = #[trigger] sentences(text)[i][k];
                c != '.' && c != '!' && c != '?' && c != '…' && c != ';' && c != '\n'
            },
{
    lemma_visible_with_piece(closed_sentences(text), open_sentence(text));
    lemma_visible_closed(text);
    lemma_inner_characters(text);
    let list = sentences(text);
    assert forall|i: int, k: int| 0 <= i < list.len() && 0 <= k < list[i].len() - 1 implies {
        let c = #[trigger] list[i][k];
        c != '.' && c != '!' && c != '?' && c != '…' && c != ';' && c != '\n'
    } by {
        assert(is_uncut(list[i]));
        let sentence = list[i];
        assert(!closes_sentence(sentence[k]));
    }
}

/// Does nothing close the piece before its end?
spec fn is_uncut(piece: Seq<char>) -> bool {
    forall|k: int| 0 <= k < piece.len() - 1 ==> !closes_sentence(#[trigger] piece[k])
}

proof fn lemma_trimmed_is_uncut(piece: Seq<char>)
    requires
        is_uncut(piece),
    ensures
        is_uncut(trim(piece)),
{
    let from = lemma_trim(piece);
    let kept = trim(piece);
    assert forall|k: int| 0 <= k < kept.len() - 1 implies !closes_sentence(#[trigger] kept[k]) by {
        assert(kept[k] == piece[from + k]);
    }
}

proof fn lemma_inner_characters(text: Seq<char>)
    ensures
        forall|i: int| 0 <= i < sentences(text).len() ==> is_uncut(#[trigger] sentences(text)[i]),
        forall|i: int|
            0 <= i < closed_sentences(text).len() ==> is_uncut(#[trigger] closed_sentences(text)[i]),
    decreases text.len(),
{
    let closed = closed_sentences(text);
    if text.len() > 0 {
        let front = text.drop_last();
        lemma_inner_characters(front);
        if closes_sentence(text.last()) {
            lemma_open_is_the_end(front);
            let piece = open_sentence(front).push(text.last());
            assert forall|k: int| 0 <= k < piece.len() - 1 implies !closes_sentence(
                #[trigger] piece[k],
            ) by {
                assert(piece[k] == open_sentence(front)[k]);
            }
            lemma_trimmed_is_uncut(piece);
        }
        assert forall|i: int| 0 <= i < closed.len() implies is_uncut(#[trigger] closed[i]) by {
            if i < closed_sentences(front).len() {
                assert(closed[i] == closed_sentences(front)[i]);
            }
        }
    }
    lemma_open_is_the_end(text);
    let open = open_sentence(text);
    assert(is_uncut(open));
    lemma_trimmed_is_uncut(open);
    let list = sentences(text);
    assert forall|i: int| 0 <= i < list.len() implies is_uncut(#[trigger] list[i]) by {
        if i < closed.len() {
            assert(list[i] == closed[i]);
        }
    }
}

proof fn lemma_sentences_from(list: Seq<Seq<char>>, from: int)
    requires
        are_sentences(list),
        0 <= from <= list.len(),
    ensures
        are_sentences(list.skip(from)),
        are_sentences(list.take(from)),
{
    let rest = list.skip(from);
    let head = list.take(from);
    assert forall|i: int| 0 <= i < rest.len() implies is_sentence(#[trigger] rest[i]) by {
        assert(rest[i] == list[from + i]);
    }
    assert forall|i: int| 0 <= i < rest.len() - 1 implies closes_sentence(
        (#[trigger] rest[i]).last(),
    ) by {
        assert(rest[i] == list[from + i]);
    }
    assert forall|i: int| 0 <= i < head.len() implies is_sentence(#[trigger] head[i]) by {
        assert(head[i] == list[i]);
    }
    assert forall|i: int| 0 <= i < head.len() - 1 implies closes_sentence(
        (#[trigger] head[i]).last(),
    ) by {
        assert(head[i] == list[i]);
    }
}

/// Could the chunk at `i` not have taken the first sentence of the next one?
spec fn is_full(chunks: Seq<Seq<char>>, i: int) -> bool {
    chunks[i].len() + sentences(chunks[i + 1])[0].len() > if i == 0 {
        90int
    } else {
        220
    }
}

proof fn lemma_full(all: Seq<Seq<char>>)
    requires
        are_sentences(all),
    ensures
        forall|i: int|
            0 <= i < packed_chunks(pack(all)).len() - 1 ==> #[trigger] is_full(
                packed_chunks(pack(all)),
                i,
            ),
    decreases all.len(),
{
    if all.len() > 0 {
        let front = all.drop_last();
        let sentence = all.last();
        assert(front =~= all.take(all.len() - 1));
        lemma_sentences_from(all, all.len() - 1);
        lemma_full(front);
        assert forall|i: int| 0 <= i < front.len() implies (#[trigger] front[i]).len() > 0 by {
            assert(is_sentence(front[i]));
        }
        lemma_pack(front);
        let before = pack(front);
        let after = pack(all);
        let shown = packed_chunks(before);
        let chunks = packed_chunks(after);
        assert(is_sentence(all[all.len() - 1]));
        if front.len() == 0 {
            assert(chunks =~= seq![sentence]);
        } else if after.chunks.len() > before.chunks.len() {
            assert(chunks =~= shown.push(sentence));
            let one = seq![sentence];
            assert(one =~= all.skip(all.len() - 1));
            lemma_cut_where_joined(one);
            assert(join(one, seq![' ']) == sentence);
            assert forall|i: int| 0 <= i < chunks.len() - 1 implies #[trigger] is_full(
                chunks,
                i,
            ) by {
                if i < shown.len() - 1 {
                    assert(is_full(shown, i));
                    assert(chunks[i] == shown[i] && chunks[i + 1] == shown[i + 1]);
                }
            }
        } else {
            let from = lemma_runs(front);
            lemma_sentences_from(front, from);
            lemma_sentences_from(all, from);
            lemma_cut_where_joined(front.skip(from));
            lemma_cut_where_joined(all.skip(from));
            assert(all.skip(from) =~= front.skip(from).push(sentence));
            lemma_join_one_more(front.skip(from), sentence);
            let longer = before.current + seq![' '] + sentence;
            assert(chunks =~= before.chunks.push(longer));
            assert(sentences(longer)[0] == sentences(before.current)[0]);
            assert forall|i: int| 0 <= i < chunks.len() - 1 implies #[trigger] is_full(
                chunks,
                i,
            ) by {
                assert(is_full(shown, i));
                assert(chunks[i] == shown[i]);
                if i + 1 < before.chunks.len() {
                    assert(chunks[i + 1] == shown[i + 1]);
                }
            }
        }
    }
}

/// No chunk is shorter than it has to be: with the sentence that comes after it, the
/// first one would hold more than 90 characters, and any other one more than 220.
pub proof fn law_chunks_are_full(text: Seq<char>, i: int)
    requires
        0 <= i < reading_chunks(text).len() - 1,
    ensures
        sentences(reading_chunks(text)[i + 1]).len() > 0,
        reading_chunks(text)[i].len() + sentences(reading_chunks(text)[i + 1])[0].len() > if i == 0 {
            90int
        } else {
            220
        },
{
    let cleaned = squeezed(text);
    lemma_squeezed_is_tidy(text);
    lemma_cut_sentences(cleaned);
    lemma_full(sentences(cleaned));
    assert(is_full(reading_chunks(text), i));
    lemma_chunk_has_sentence(text, i + 1);
}

/// Each chunk has a sentence in it.
proof fn lemma_chunk_has_sentence(text: Seq<char>, i: int)
    requires
        0 <= i < reading_chunks(text).len(),
    ensures
        sentences(reading_chunks(text)[i]).len() > 0,
{
    law_sentences_keep_the_text(reading_chunks(text)[i]);
    lemma_chunks_are_tidy(text);
    let chunk = reading_chunks(text)[i];
    assert(!is_white(chunk[0]));
    lemma_visible_append(seq![chunk[0]], chunk.skip(1));
    assert(seq![chunk[0]] + chunk.skip(1) =~= chunk);
    reveal_with_fuel(visible, 2);
    assert(visible(seq![chunk[0]]).len() > 0);
}

proof fn lemma_chunks_are_tidy(text: Seq<char>)
    ensures
        forall|i: int|
            0 <= i < reading_chunks(text).len() ==> (#[trigger] reading_chunks(text)[i]).len() > 0
                && !is_white(reading_chunks(text)[i][0]),
{
    let cleaned = squeezed(text);
    let all = sentences(cleaned);
    lemma_squeezed_is_tidy(text);
    lemma_cut_sentences(cleaned);
    lemma_packed_begin(all);
}

proof fn lemma_packed_begin(all: Seq<Seq<char>>)
    requires
        are_sentences(all),
    ensures
        forall|i: int|
            0 <= i < packed_chunks(pack(all)).len() ==> (#[trigger] packed_chunks(
                pack(all),
            )[i]).len() > 0 && !is_white(packed_chunks(pack(all))[i][0]),
    decreases all.len(),
{
    if all.len() > 0 {
        let front = all.drop_last();
        assert(front =~= all.take(all.len() - 1));
        lemma_sentences_from(all, all.len() - 1);
        lemma_packed_begin(front);
        assert(is_sentence(all[all.len() - 1]));
        let before = pack(front);
        let shown = packed_chunks(before);
        let chunks = packed_chunks(pack(all));
        assert forall|i: int| 0 <= i < chunks.len() implies (#[trigger] chunks[i]).len() > 0
            && !is_white(chunks[i][0]) by {
            if before.current.len() > 0 {
                assert(shown[shown.len() - 1] == before.current);
                assert(!is_white(before.current[0]));
            }
            if i < before.chunks.len() {
                assert(shown[i] == before.chunks[i]);
                assert(chunks[i] == shown[i]);
            }
        }
    }
}

} // verus!
