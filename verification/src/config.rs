//! The preferences, and what the app takes from its surroundings.
//!
//! The address and the login come from outside; the preferences lie in a file
//! that anybody may edit. So what is read is mended, value by value: a number out
//! of range is brought back into it, and no mistake keeps the app from starting.

use vstd::prelude::*;

use crate::api::{login_view, Credentials};
use crate::commands::Command;
use crate::float::{Double, Single};
use crate::hud::HudRole;
use crate::outside::lowercase;
use crate::text::{
    blank, chars_start_with, copy_optional, copy_text, directory_of, directory_part, hex_digits,
    hex_digits_text, is_blank, is_white, join, join_texts, lemma_texts_push, lemma_trim,
    lemma_trim_again, optional, optional_str, same_text, starts_with, texts, to_chars, trim,
    trim_chars, trimmed,
};

verus! {

/// What happens to a transcription.
#[derive(Debug, Clone, Copy, PartialEq, Eq, Structural)]
pub enum OutputAction {
    Paste,
    Clipboard,
}

/// When a dictation is sent by itself.
#[derive(Debug, Clone, Copy, PartialEq, Eq, Structural)]
pub enum SubmitMode {
    Disabled,
    Keyword,
    Auto,
}

/// The key that sends.
#[derive(Debug, Clone, Copy, PartialEq, Eq, Structural)]
pub enum SubmitKey {
    Enter,
    ShiftEnter,
}

/// A place chosen for the floating window. The coordinates may be negative, on a
/// monitor to the left of the main one.
#[derive(Debug, Clone, Copy, PartialEq, Eq, Structural)]
pub struct WindowPosition {
    pub x: Double,
    pub y: Double,
}

impl WindowPosition {
    /// Is this a place at all?
    pub open spec fn usable(self) -> bool {
        self.x.finite() && self.y.finite()
    }

    /// Do both say the same place?
    pub open spec fn same_place(self, other: WindowPosition) -> bool {
        self.x.same_number(other.x) && self.y.same_number(other.y)
    }
}

/// The limits of the vocabulary.
pub const MAX_VOCABULARY_ITEMS: usize = 50;

pub const MAX_VOCABULARY_ITEM_LENGTH: usize = 50;

/// The bits of the slowest and of the fastest voice: 0.5 and 2.0.
pub const MIN_SPEED: u32 = 0x3f00_0000;

pub const MAX_SPEED: u32 = 0x4000_0000;

// ------------------------------------------------------------- combinations

/// The combination that was chosen for each command. No key occurs twice.
#[derive(Debug)]
pub struct Bindings {
    pub entries: Vec<(String, String)>,
}

/// The keys of a list of entries.
pub open spec fn keys_of(entries: Seq<(String, String)>) -> Seq<Seq<char>> {
    entries.map_values(|entry: (String, String)| entry.0@)
}

/// What a list of entries maps each key to.
pub open spec fn entries_map(entries: Seq<(String, String)>) -> Map<Seq<char>, Seq<char>>
    decreases entries.len(),
{
    if entries.len() == 0 {
        Map::empty()
    } else {
        entries_map(entries.drop_last()).insert(entries.last().0@, entries.last().1@)
    }
}

impl View for Bindings {
    type V = Map<Seq<char>, Seq<char>>;

    open spec fn view(&self) -> Map<Seq<char>, Seq<char>> {
        entries_map(self.entries@)
    }
}

proof fn lemma_entries_dom(entries: Seq<(String, String)>, key: Seq<char>)
    ensures
        entries_map(entries).contains_key(key) <==> keys_of(entries).contains(key),
    decreases entries.len(),
{
    if entries.len() > 0 {
        let front = entries.drop_last();
        lemma_entries_dom(front, key);
        let keys = keys_of(entries);
        assert(keys =~= keys_of(front).push(entries.last().0@));
        if keys_of(front).contains(key) {
            let i = choose|i: int| 0 <= i < keys_of(front).len() && keys_of(front)[i] == key;
            assert(keys[i] == key);
        }
        if entries.last().0@ == key {
            assert(keys[keys.len() - 1] == key);
        }
        if keys.contains(key) && entries.last().0@ != key {
            let i = choose|i: int| 0 <= i < keys.len() && keys[i] == key;
            assert(keys_of(front)[i] == key);
        }
    }
}

proof fn lemma_entry_value(entries: Seq<(String, String)>, at: int)
    requires
        0 <= at < entries.len(),
        keys_of(entries).no_duplicates(),
    ensures
        entries_map(entries).contains_key(entries[at].0@),
        entries_map(entries)[entries[at].0@] == entries[at].1@,
    decreases entries.len(),
{
    let front = entries.drop_last();
    let keys = keys_of(entries);
    if at < entries.len() - 1 {
        assert(keys_of(front) =~= keys.drop_last());
        assert(front[at] == entries[at]);
        lemma_entry_value(front, at);
        assert(keys[at] == entries[at].0@);
        assert(keys[keys.len() - 1] == entries.last().0@);
    }
}

impl Bindings {
    /// No key occurs twice.
    pub open spec fn wf(self) -> bool {
        keys_of(self.entries@).no_duplicates()
    }

    /// Nothing chosen.
    pub fn new() -> (bindings: Bindings)
        ensures
            bindings.wf(),
            bindings@ == Map::<Seq<char>, Seq<char>>::empty(),
    {
        Bindings { entries: Vec::new() }
    }

    /// Where the entry of a key is.
    fn find(&self, key: &str) -> (at: Option<usize>)
        requires
            self.wf(),
        ensures
            match at {
                Some(i) => i < self.entries@.len() && self.entries@[i as int].0@ == key@
                    && self@.contains_key(key@) && self@[key@] == self.entries@[i as int].1@,
                None => !self@.contains_key(key@),
            },
    {
        let mut i: usize = 0;
        while i < self.entries.len()
            invariant
                i <= self.entries.len(),
                self.wf(),
                forall|k: int| 0 <= k < i ==> self.entries@[k].0@ != key@,
            decreases self.entries.len() - i,
        {
            if same_text(self.entries[i].0.as_str(), key) {
                proof {
                    lemma_entry_value(self.entries@, i as int);
                }
                return Some(i);
            }
            i = i + 1;
        }
        proof {
            lemma_entries_dom(self.entries@, key@);
            let keys = keys_of(self.entries@);
            if keys.contains(key@) {
                let k = choose|k: int| 0 <= k < keys.len() && keys[k] == key@;
                assert(self.entries@[k].0@ == key@);
            }
        }
        None
    }

    /// What was chosen under a key.
    pub fn get(&self, key: &str) -> (binding: Option<String>)
        requires
            self.wf(),
        ensures
            optional(binding) == if self@.contains_key(key@) {
                Some(self@[key@])
            } else {
                None
            },
    {
        match self.find(key) {
            Some(i) => Some(copy_text(self.entries[i].1.as_str())),
            None => None,
        }
    }

    /// Chooses a combination.
    pub fn set(&mut self, key: &str, binding: String)
        requires
            old(self).wf(),
        ensures
            final(self).wf(),
            final(self)@ == old(self)@.insert(key@, binding@),
    {
        let ghost before = self.entries@;
        match self.find(key) {
            Some(i) => {
                let entry = (copy_text(self.entries[i].0.as_str()), binding);
                self.entries.set(i, entry);
                proof {
                    assert(keys_of(self.entries@) =~= keys_of(before));
                    lemma_replace_entry(before, i as int, entry);
                }
            },
            None => {
                let entry = (copy_text(key), binding);
                self.entries.push(entry);
                proof {
                    lemma_entries_dom(before, key@);
                    let keys = keys_of(self.entries@);
                    assert(keys =~= keys_of(before).push(key@));
                    assert forall|a: int, b: int|
                        0 <= a < keys.len() && 0 <= b < keys.len() && a != b implies keys[a]
                        != keys[b] by {
                        if a < before.len() {
                            assert(keys_of(before).contains(keys_of(before)[a]));
                        }
                        if b < before.len() {
                            assert(keys_of(before).contains(keys_of(before)[b]));
                        }
                    }
                    assert(self.entries@.drop_last() =~= before);
                }
            },
        }
    }
}

proof fn lemma_replace_entry(entries: Seq<(String, String)>, at: int, entry: (String, String))
    requires
        0 <= at < entries.len(),
        keys_of(entries).no_duplicates(),
        entry.0@ == entries[at].0@,
    ensures
        entries_map(entries.update(at, entry)) == entries_map(entries).insert(entry.0@, entry.1@),
    decreases entries.len(),
{
    let changed = entries.update(at, entry);
    let front = entries.drop_last();
    let keys = keys_of(entries);
    if at == entries.len() - 1 {
        assert(changed.drop_last() =~= front);
        assert(entries_map(changed) =~= entries_map(entries).insert(entry.0@, entry.1@));
    } else {
        assert(keys_of(front) =~= keys.drop_last());
        assert(changed.drop_last() =~= front.update(at, entry));
        lemma_replace_entry(front, at, entry);
        assert(keys[at] == entry.0@);
        assert(keys[keys.len() - 1] == entries.last().0@);
        assert(entries_map(changed) =~= entries_map(entries).insert(entry.0@, entry.1@));
    }
}

// --------------------------------------------------------------- vocabulary

/// Is this a term of the vocabulary: something, and not too long?
pub open spec fn is_term(term: Seq<char>) -> bool {
    0 < trim(term).len() <= MAX_VOCABULARY_ITEM_LENGTH
}

/// The terms of a list that are terms, in order.
pub open spec fn real_terms(terms: Seq<Seq<char>>) -> Seq<Seq<char>>
    decreases terms.len(),
{
    if terms.len() == 0 {
        Seq::empty()
    } else if is_term(terms.last()) {
        real_terms(terms.drop_last()).push(terms.last())
    } else {
        real_terms(terms.drop_last())
    }
}

/// The terms of which no earlier one has the same key, in order.
pub open spec fn first_of_each(terms: Seq<Seq<char>>, keys: Seq<Seq<char>>) -> Seq<Seq<char>>
    decreases terms.len(),
{
    if terms.len() == 0 {
        Seq::empty()
    } else {
        let before = first_of_each(terms.drop_last(), keys.drop_last());
        if keys.drop_last().contains(keys.last()) {
            before
        } else {
            before.push(terms.last())
        }
    }
}

/// The terms in lower case.
pub open spec fn lowered(terms: Seq<Seq<char>>) -> Seq<Seq<char>> {
    terms.map_values(|term: Seq<char>| lowercase(term))
}

/// At most as many as the vocabulary holds.
pub open spec fn capped(terms: Seq<Seq<char>>) -> Seq<Seq<char>> {
    if terms.len() > MAX_VOCABULARY_ITEMS {
        terms.take(MAX_VOCABULARY_ITEMS as int)
    } else {
        terms
    }
}

/// The vocabulary that a list of terms makes: those that are terms, once each
/// whatever the case, in the order in which they came, up to the limit.
pub open spec fn clean_vocabulary(terms: Seq<Seq<char>>) -> Seq<Seq<char>> {
    capped(first_of_each(real_terms(terms), lowered(real_terms(terms))))
}

/// The terms of a list that are terms.
fn keep_terms(terms: &Vec<String>) -> (out: Vec<String>)
    ensures
        texts(out@) == real_terms(texts(terms@)),
{
    let ghost all = texts(terms@);
    let mut out: Vec<String> = Vec::new();
    let mut i: usize = 0;
    while i < terms.len()
        invariant
            i <= terms.len(),
            all == texts(terms@),
            texts(out@) == real_terms(all.take(i as int)),
        decreases terms.len() - i,
    {
        proof {
            assert(all.take(i + 1).drop_last() =~= all.take(i as int));
        }
        let chars = to_chars(terms[i].as_str());
        let visible = trim_chars(chars.as_slice());
        if visible.len() > 0 && visible.len() <= MAX_VOCABULARY_ITEM_LENGTH {
            let term = copy_text(terms[i].as_str());
            proof {
                lemma_texts_push(out@, term);
            }
            out.push(term);
        }
        i = i + 1;
    }
    proof {
        assert(all.take(all.len() as int) =~= all);
    }
    out
}

/// The terms of which no earlier one has the same key.
pub fn keep_first_of_each(terms: &Vec<String>, keys: &Vec<String>) -> (out: Vec<String>)
    requires
        terms@.len() == keys@.len(),
    ensures
        texts(out@) == first_of_each(texts(terms@), texts(keys@)),
{
    let ghost all = texts(terms@);
    let ghost marks = texts(keys@);
    let mut out: Vec<String> = Vec::new();
    let mut i: usize = 0;
    while i < terms.len()
        invariant
            i <= terms.len(),
            terms@.len() == keys@.len(),
            all == texts(terms@),
            marks == texts(keys@),
            texts(out@) == first_of_each(all.take(i as int), marks.take(i as int)),
        decreases terms.len() - i,
    {
        proof {
            assert(all.take(i + 1).drop_last() =~= all.take(i as int));
            assert(marks.take(i + 1).drop_last() =~= marks.take(i as int));
        }
        let mut seen = false;
        let mut j: usize = 0;
        while j < i
            invariant
                j <= i < keys@.len(),
                i < keys.len(),
                marks == texts(keys@),
                seen <==> exists|k: int| 0 <= k < j && marks[k] == marks[i as int],
            decreases i - j,
        {
            if same_text(keys[j].as_str(), keys[i].as_str()) {
                seen = true;
                proof {
                    assert(marks[j as int] == marks[i as int]);
                }
            }
            j = j + 1;
        }
        proof {
            let earlier = marks.take(i as int);
            if seen {
                let k = choose|k: int| 0 <= k < i && marks[k] == marks[i as int];
                assert(earlier[k] == marks[i as int]);
            }
            if earlier.contains(marks[i as int]) {
                let k = choose|k: int| 0 <= k < earlier.len() && earlier[k] == marks[i as int];
                assert(marks[k] == marks[i as int]);
            }
        }
        if !seen {
            let term = copy_text(terms[i].as_str());
            proof {
                lemma_texts_push(out@, term);
            }
            out.push(term);
        }
        i = i + 1;
    }
    proof {
        assert(all.take(all.len() as int) =~= all);
        assert(marks.take(marks.len() as int) =~= marks);
    }
    out
}

/// The terms in lower case.
fn lower_terms(terms: &Vec<String>) -> (out: Vec<String>)
    ensures
        out@.len() == terms@.len(),
        texts(out@) == lowered(texts(terms@)),
{
    let ghost all = texts(terms@);
    let mut out: Vec<String> = Vec::new();
    let mut i: usize = 0;
    while i < terms.len()
        invariant
            i <= terms.len(),
            all == texts(terms@),
            out@.len() == i,
            texts(out@) == lowered(all.take(i as int)),
        decreases terms.len() - i,
    {
        let lower = terms[i].as_str().to_lowercase();
        proof {
            lemma_texts_push(out@, lower);
            assert(lowered(all.take(i + 1)) =~= lowered(all.take(i as int)).push(lower@));
        }
        out.push(lower);
        i = i + 1;
    }
    proof {
        assert(all.take(all.len() as int) =~= all);
    }
    out
}

/// The vocabulary that a list of terms makes.
pub fn sanitize_vocabulary(terms: &Vec<String>) -> (out: Vec<String>)
    ensures
        texts(out@) == clean_vocabulary(texts(terms@)),
{
    let kept = keep_terms(terms);
    let keys = lower_terms(&kept);
    let mut out = keep_first_of_each(&kept, &keys);
    let ghost before = out@;
    if out.len() > MAX_VOCABULARY_ITEMS {
        out.truncate(MAX_VOCABULARY_ITEMS);
        proof {
            assert(texts(out@) =~= texts(before).take(MAX_VOCABULARY_ITEMS as int));
        }
    }
    out
}

// -------------------------------------------------------------- preferences

/// What the user has chosen.
#[derive(Debug)]
pub struct Settings {
    pub input_device: Option<String>,
    pub transcription_model: String,
    pub output_action: OutputAction,
    pub submit_mode: SubmitMode,
    pub submit_keyword: String,
    pub submit_key: SubmitKey,
    /// Shows the text in the floating window while the user speaks. What is pasted
    /// still comes from the transcription of the whole.
    pub live_transcription: bool,
    /// Shows the text of the live transcription in a window of its own.
    pub show_live_transcription: bool,
    /// Opens the window of the text together with the voice.
    pub open_reader_on_read: bool,
    /// Shows the text inside the floating window while it is read.
    pub reading_captions: bool,
    /// Has the text corrected before it is spoken.
    pub normalize_before_reading: bool,
    /// Has tables put into words before they are spoken.
    pub narrate_tables: bool,
    /// Opens the port that the browser extension uses.
    pub bridge_enabled: bool,
    pub bridge_port: u16,
    /// The secret shared with the extension.
    pub bridge_token: String,
    pub vocabulary: Vec<String>,
    pub custom_instructions: String,
    /// Has the transcription rewritten before it is delivered.
    pub stt_rewrite_enabled: bool,
    pub stt_rewrite_preset: String,
    /// How much may be changed, from 1 to 3.
    pub stt_rewrite_intensity: u8,
    pub stt_rewrite_model: Option<String>,
    pub voice: String,
    pub speed: Single,
    /// A margin on the lead before playing, from 0 to 0.5.
    pub prebuffer_ratio: Single,
    /// The combination of each command, by its key in the catalogue.
    pub shortcuts: Bindings,
    /// Where the choice was kept before there was a catalogue. It moves to the
    /// catalogue once and is gone from here.
    pub shortcut_dictate: Option<String>,
    pub shortcut_read: Option<String>,
    pub shortcut_show_widget: Option<String>,
    /// Where the window was last dragged to.
    pub hud_position: Option<WindowPosition>,
    /// Where the bar of the dictation was dragged to.
    pub hud_position_dictation: Option<WindowPosition>,
    /// Where the right edge of the column of the reading was dragged to.
    pub hud_position_reading: Option<WindowPosition>,
    pub sounds_enabled: bool,
    /// From 0 to 1.
    pub sounds_volume: Single,
    pub external_sounds_directory: Option<String>,
    /// The app answers to its commands, or takes a break.
    pub service_enabled: bool,
    pub start_with_windows: bool,
    /// The accent colour, in hexadecimal.
    pub theme_accent: String,
}

/// What the user has chosen.
pub ghost struct SettingsView {
    pub input_device: Option<Seq<char>>,
    pub transcription_model: Seq<char>,
    pub output_action: OutputAction,
    pub submit_mode: SubmitMode,
    pub submit_keyword: Seq<char>,
    pub submit_key: SubmitKey,
    pub live_transcription: bool,
    pub show_live_transcription: bool,
    pub open_reader_on_read: bool,
    pub reading_captions: bool,
    pub normalize_before_reading: bool,
    pub narrate_tables: bool,
    pub bridge_enabled: bool,
    pub bridge_port: u16,
    pub bridge_token: Seq<char>,
    pub vocabulary: Seq<Seq<char>>,
    pub custom_instructions: Seq<char>,
    pub stt_rewrite_enabled: bool,
    pub stt_rewrite_preset: Seq<char>,
    pub stt_rewrite_intensity: u8,
    pub stt_rewrite_model: Option<Seq<char>>,
    pub voice: Seq<char>,
    pub speed: Single,
    pub prebuffer_ratio: Single,
    pub shortcuts: Map<Seq<char>, Seq<char>>,
    pub shortcut_dictate: Option<Seq<char>>,
    pub shortcut_read: Option<Seq<char>>,
    pub shortcut_show_widget: Option<Seq<char>>,
    pub hud_position: Option<WindowPosition>,
    pub hud_position_dictation: Option<WindowPosition>,
    pub hud_position_reading: Option<WindowPosition>,
    pub sounds_enabled: bool,
    pub sounds_volume: Single,
    pub external_sounds_directory: Option<Seq<char>>,
    pub service_enabled: bool,
    pub start_with_windows: bool,
    pub theme_accent: Seq<char>,
}

impl View for Settings {
    type V = SettingsView;

    open spec fn view(&self) -> SettingsView {
        SettingsView {
            input_device: optional(self.input_device),
            transcription_model: self.transcription_model@,
            output_action: self.output_action,
            submit_mode: self.submit_mode,
            submit_keyword: self.submit_keyword@,
            submit_key: self.submit_key,
            live_transcription: self.live_transcription,
            show_live_transcription: self.show_live_transcription,
            open_reader_on_read: self.open_reader_on_read,
            reading_captions: self.reading_captions,
            normalize_before_reading: self.normalize_before_reading,
            narrate_tables: self.narrate_tables,
            bridge_enabled: self.bridge_enabled,
            bridge_port: self.bridge_port,
            bridge_token: self.bridge_token@,
            vocabulary: texts(self.vocabulary@),
            custom_instructions: self.custom_instructions@,
            stt_rewrite_enabled: self.stt_rewrite_enabled,
            stt_rewrite_preset: self.stt_rewrite_preset@,
            stt_rewrite_intensity: self.stt_rewrite_intensity,
            stt_rewrite_model: optional(self.stt_rewrite_model),
            voice: self.voice@,
            speed: self.speed,
            prebuffer_ratio: self.prebuffer_ratio,
            shortcuts: self.shortcuts@,
            shortcut_dictate: optional(self.shortcut_dictate),
            shortcut_read: optional(self.shortcut_read),
            shortcut_show_widget: optional(self.shortcut_show_widget),
            hud_position: self.hud_position,
            hud_position_dictation: self.hud_position_dictation,
            hud_position_reading: self.hud_position_reading,
            sounds_enabled: self.sounds_enabled,
            sounds_volume: self.sounds_volume,
            external_sounds_directory: optional(self.external_sounds_directory),
            service_enabled: self.service_enabled,
            start_with_windows: self.start_with_windows,
            theme_accent: self.theme_accent@,
        }
    }
}

/// The preferences of a new user, given the secret of the bridge and the
/// directory of dictation sounds.
pub open spec fn default_settings(token: Seq<char>, sounds: Option<Seq<char>>) -> SettingsView {
    SettingsView {
        input_device: None,
        transcription_model: "groq/whisper-large-v3-turbo"@,
        output_action: OutputAction::Paste,
        submit_mode: SubmitMode::Disabled,
        submit_keyword: "manda ver"@,
        submit_key: SubmitKey::Enter,
        live_transcription: true,
        show_live_transcription: false,
        open_reader_on_read: false,
        reading_captions: false,
        normalize_before_reading: false,
        narrate_tables: true,
        bridge_enabled: true,
        bridge_port: 8765,
        bridge_token: token,
        vocabulary: Seq::empty(),
        custom_instructions: ""@,
        stt_rewrite_enabled: false,
        stt_rewrite_preset: "fala-limpa"@,
        stt_rewrite_intensity: 2,
        stt_rewrite_model: None,
        voice: "piper:pt_BR-cadu-medium"@,
        speed: Single { bits: Single::ONE_BITS },
        prebuffer_ratio: Single { bits: 0x3dcc_cccd },
        shortcuts: Map::empty(),
        shortcut_dictate: None,
        shortcut_read: None,
        shortcut_show_widget: None,
        hud_position: None,
        hud_position_dictation: None,
        hud_position_reading: None,
        sounds_enabled: true,
        sounds_volume: Single { bits: Single::ONE_BITS },
        external_sounds_directory: sounds,
        service_enabled: true,
        start_with_windows: false,
        theme_accent: "#966aff"@,
    }
}

/// Is this character a hexadecimal digit?
pub open spec fn is_hex_digit(c: char) -> bool {
    '0' <= c <= '9' || 'a' <= c <= 'f' || 'A' <= c <= 'F'
}

/// Is this a colour: a hash sign and six hexadecimal digits, with white space
/// around it or not?
pub open spec fn is_colour(text: Seq<char>) -> bool {
    let colour = trim(text);
    &&& colour.len() == 7
    &&& colour[0] == '#'
    &&& forall|i: int| 1 <= i < 7 ==> is_hex_digit(#[trigger] colour[i])
}

/// Is this a colour?
fn colour_is_valid(text: &str) -> (valid: bool)
    ensures
        valid == is_colour(text@),
{
    let chars = to_chars(text);
    let colour = trim_chars(chars.as_slice());
    if colour.len() != 7 || colour[0] != '#' {
        return false;
    }
    let mut i: usize = 1;
    while i < 7
        invariant
            1 <= i <= 7,
            colour@ == trim(text@),
            colour@.len() == 7,
            forall|k: int| 1 <= k < i ==> is_hex_digit(#[trigger] colour@[k]),
        decreases 7 - i,
    {
        let c = colour[i];
        if !(('0' <= c && c <= '9') || ('a' <= c && c <= 'f') || ('A' <= c && c <= 'F')) {
            proof {
                assert(!is_hex_digit(colour@[i as int]));
            }
            return false;
        }
        i = i + 1;
    }
    true
}

/// The colour, or the default one.
pub open spec fn mended_colour(text: Seq<char>) -> Seq<char> {
    if is_colour(text) {
        text
    } else {
        "#966aff"@
    }
}

fn colour_or_default(text: &str) -> (out: String)
    ensures
        out@ == mended_colour(text@),
{
    if colour_is_valid(text) {
        copy_text(text)
    } else {
        copy_text("#966aff")
    }
}

/// The text, or another where there is nothing to see in it.
pub open spec fn text_or(text: Seq<char>, other: Seq<char>) -> Seq<char> {
    if is_blank(text) {
        other
    } else {
        text
    }
}

fn text_or_other(text: &str, other: &str) -> (out: String)
    ensures
        out@ == text_or(text@, other@),
{
    if blank(text) {
        copy_text(other)
    } else {
        copy_text(text)
    }
}

/// The place, unless it is none.
pub open spec fn usable_place(place: Option<WindowPosition>) -> Option<WindowPosition> {
    if place is Some && place->0.usable() {
        place
    } else {
        None
    }
}

fn place_or_none(place: Option<WindowPosition>) -> (out: Option<WindowPosition>)
    ensures
        out == usable_place(place),
{
    match place {
        Some(position) => {
            if position.x.is_finite() && position.y.is_finite() {
                Some(position)
            } else {
                None
            }
        },
        None => None,
    }
}

/// The volume, from 0 to 1; what is no number becomes the full volume.
pub open spec fn mended_volume(volume: Single) -> Single {
    let number = if volume.finite() {
        volume
    } else {
        Single { bits: Single::ONE_BITS }
    };
    number.clamped(Single { bits: 0 }, Single { bits: Single::ONE_BITS })
}

fn mend_volume(volume: Single) -> (out: Single)
    ensures
        out == mended_volume(volume),
{
    let number = if volume.is_finite() {
        volume
    } else {
        Single { bits: Single::ONE_BITS }
    };
    number.clamp(Single { bits: 0 }, Single { bits: Single::ONE_BITS })
}

/// The intensity, from 1 to 3.
pub open spec fn mended_intensity(intensity: u8) -> u8 {
    if intensity < 1 {
        1
    } else if intensity > 3 {
        3
    } else {
        intensity
    }
}

fn mend_intensity(intensity: u8) -> (out: u8)
    ensures
        out == mended_intensity(intensity),
{
    if intensity < 1 {
        1
    } else if intensity > 3 {
        3
    } else {
        intensity
    }
}

/// The combinations with one for the given command: the one that was chosen, else
/// the one from before there was a catalogue, else the default; trimmed, and
/// empty where the command is to have none.
pub open spec fn with_command(
    bindings: Map<Seq<char>, Seq<char>>,
    command: Command,
    legacy: Option<Seq<char>>,
) -> Map<Seq<char>, Seq<char>> {
    let chosen = if bindings.contains_key(command.key()) {
        bindings[command.key()]
    } else if legacy is Some {
        legacy->0
    } else {
        command.default_keys()
    };
    bindings.insert(command.key(), trim(chosen))
}

/// What was chosen for a command before there was a catalogue.
pub open spec fn legacy_of(
    command: Command,
    dictate: Option<Seq<char>>,
    read: Option<Seq<char>>,
    show_widget: Option<Seq<char>>,
) -> Option<Seq<char>> {
    match command {
        Command::Dictate => dictate,
        Command::ReadSelection => read,
        Command::ShowWidget => show_widget,
        _ => None,
    }
}

/// The combinations with one for each of the first `count` commands of the
/// catalogue.
pub open spec fn with_commands(
    bindings: Map<Seq<char>, Seq<char>>,
    count: nat,
    dictate: Option<Seq<char>>,
    read: Option<Seq<char>>,
    show_widget: Option<Seq<char>>,
) -> Map<Seq<char>, Seq<char>>
    decreases count,
{
    if count == 0 {
        bindings
    } else {
        let command = Command::ALL@[count - 1];
        with_command(
            with_commands(bindings, (count - 1) as nat, dictate, read, show_widget),
            command,
            legacy_of(command, dictate, read, show_widget),
        )
    }
}

impl SettingsView {
    /// The preferences with every value mended.
    pub open spec fn sanitized(self) -> SettingsView {
        SettingsView {
            speed: self.speed.clamped(Single { bits: MIN_SPEED }, Single { bits: MAX_SPEED }),
            prebuffer_ratio: self.prebuffer_ratio.clamped(
                Single { bits: 0 },
                Single { bits: 0x3f00_0000 },
            ),
            sounds_volume: mended_volume(self.sounds_volume),
            stt_rewrite_intensity: mended_intensity(self.stt_rewrite_intensity),
            stt_rewrite_preset: text_or(self.stt_rewrite_preset, "fala-limpa"@),
            shortcuts: with_commands(
                self.shortcuts,
                8,
                self.shortcut_dictate,
                self.shortcut_read,
                self.shortcut_show_widget,
            ),
            shortcut_dictate: None,
            shortcut_read: None,
            shortcut_show_widget: None,
            theme_accent: mended_colour(self.theme_accent),
            hud_position: usable_place(self.hud_position),
            hud_position_dictation: usable_place(self.hud_position_dictation),
            hud_position_reading: usable_place(self.hud_position_reading),
            vocabulary: clean_vocabulary(self.vocabulary),
            submit_keyword: text_or(self.submit_keyword, "manda ver"@),
            ..self
        }
    }
}

/// Gives each command of the catalogue a combination.
fn sanitize_bindings(
    bindings: &mut Bindings,
    dictate: &Option<String>,
    read: &Option<String>,
    show_widget: &Option<String>,
)
    requires
        old(bindings).wf(),
    ensures
        final(bindings).wf(),
        final(bindings)@ == with_commands(
            old(bindings)@,
            8,
            optional(*dictate),
            optional(*read),
            optional(*show_widget),
        ),
{
    let ghost start = bindings@;
    let mut i: usize = 0;
    while i < 8
        invariant
            i <= 8,
            bindings.wf(),
            start == old(bindings)@,
            bindings@ == with_commands(
                start,
                i as nat,
                optional(*dictate),
                optional(*read),
                optional(*show_widget),
            ),
        decreases 8 - i,
    {
        let comando = Command::ALL[i];
        let legado = match comando {
            Command::Dictate => copy_optional(dictate),
            Command::ReadSelection => copy_optional(read),
            Command::ShowWidget => copy_optional(show_widget),
            _ => None,
        };
        let escolhida = match bindings.get(comando.id()) {
            Some(texto) => texto,
            None => match legado {
                Some(texto) => texto,
                None => copy_text(comando.default_binding()),
            },
        };
        bindings.set(comando.id(), trimmed(escolhida.as_str()));
        i = i + 1;
    }
}

/// What was found where the preferences are kept.
#[derive(Debug)]
pub enum SettingsFile {
    Missing,
    Unreadable,
    Read(Settings),
}

/// How the preferences that were loaded are written back. They always are: a field
/// that is not in the file can be neither found nor changed there, and what is
/// written is what was just read, so nothing that was chosen is lost.
#[derive(Debug, Clone, Copy, PartialEq, Eq, Structural)]
pub enum WriteBack {
    /// There was no file: the one that is written is the first.
    FirstTime,
    /// The file is written anew.
    Again,
}

/// The preferences that are loaded, and written back.
pub open spec fn loaded_settings(file: SettingsFile, defaults: SettingsView) -> SettingsView {
    match file {
        SettingsFile::Read(found) => found@.sanitized(),
        _ => defaults.sanitized(),
    }
}

impl Settings {
    /// The combinations hold no key twice.
    pub open spec fn wf(self) -> bool {
        self.shortcuts.wf()
    }

    /// The preferences of a new user.
    pub fn defaults(token: String, sounds: Option<String>) -> (settings: Settings)
        ensures
            settings.wf(),
            settings@ == default_settings(token@, optional(sounds)),
            settings.output_action == OutputAction::Paste,
            settings.submit_mode == SubmitMode::Disabled && settings.submit_key
                == SubmitKey::Enter,
            settings.submit_keyword@ == "manda ver"@,
            settings.live_transcription && !settings.show_live_transcription,
            !settings.open_reader_on_read && !settings.reading_captions,
            !settings.normalize_before_reading && settings.narrate_tables,
            settings.bridge_enabled && settings.bridge_port == 8765 && settings.bridge_token
                == token,
            settings.vocabulary@.len() == 0 && settings.custom_instructions@ == ""@,
            !settings.stt_rewrite_enabled && settings.stt_rewrite_preset@ == "fala-limpa"@,
            settings.stt_rewrite_intensity == 2 && settings.stt_rewrite_model is None,
            settings.transcription_model@ == "groq/whisper-large-v3-turbo"@,
            settings.voice@ == "piper:pt_BR-cadu-medium"@,
            settings.speed.bits == 0x3f80_0000 && settings.prebuffer_ratio.bits == 0x3dcc_cccd,
            settings.sounds_enabled && settings.sounds_volume.bits == 0x3f80_0000,
            settings.external_sounds_directory == sounds,
            settings.service_enabled && !settings.start_with_windows,
            settings.theme_accent@ == "#966aff"@,
    {
        let settings = Settings {
            input_device: None,
            transcription_model: copy_text("groq/whisper-large-v3-turbo"),
            output_action: OutputAction::Paste,
            submit_mode: SubmitMode::Disabled,
            submit_keyword: copy_text("manda ver"),
            submit_key: SubmitKey::Enter,
            live_transcription: true,
            show_live_transcription: false,
            open_reader_on_read: false,
            reading_captions: false,
            normalize_before_reading: false,
            narrate_tables: true,
            bridge_enabled: true,
            bridge_port: 8765,
            bridge_token: token,
            vocabulary: Vec::new(),
            custom_instructions: copy_text(""),
            stt_rewrite_enabled: false,
            stt_rewrite_preset: copy_text("fala-limpa"),
            stt_rewrite_intensity: 2,
            stt_rewrite_model: None,
            voice: copy_text("piper:pt_BR-cadu-medium"),
            speed: Single { bits: Single::ONE_BITS },
            prebuffer_ratio: Single { bits: 0x3dcc_cccd },
            shortcuts: Bindings::new(),
            shortcut_dictate: None,
            shortcut_read: None,
            shortcut_show_widget: None,
            hud_position: None,
            hud_position_dictation: None,
            hud_position_reading: None,
            sounds_enabled: true,
            sounds_volume: Single { bits: Single::ONE_BITS },
            external_sounds_directory: sounds,
            service_enabled: true,
            start_with_windows: false,
            theme_accent: copy_text("#966aff"),
        };
        proof {
            assert(settings@.vocabulary =~= Seq::<Seq<char>>::empty());
        }
        settings
    }

    /// Brings values out of range back into it, in place of refusing the file.
    pub fn sanitize(&mut self)
        requires
            old(self).wf(),
        ensures
            final(self).wf(),
            final(self)@ == old(self)@.sanitized(),
    {
        self.speed = self.speed.clamp(Single { bits: MIN_SPEED }, Single { bits: MAX_SPEED });
        self.prebuffer_ratio = self.prebuffer_ratio.clamp(
            Single { bits: 0 },
            Single { bits: 0x3f00_0000 },
        );
        self.sounds_volume = mend_volume(self.sounds_volume);
        self.stt_rewrite_intensity = mend_intensity(self.stt_rewrite_intensity);
        self.stt_rewrite_preset = text_or_other(self.stt_rewrite_preset.as_str(), "fala-limpa");
        let dictate = self.shortcut_dictate.take();
        let read = self.shortcut_read.take();
        let show_widget = self.shortcut_show_widget.take();
        sanitize_bindings(&mut self.shortcuts, &dictate, &read, &show_widget);
        self.theme_accent = colour_or_default(self.theme_accent.as_str());
        self.hud_position = place_or_none(self.hud_position);
        self.hud_position_dictation = place_or_none(self.hud_position_dictation);
        self.hud_position_reading = place_or_none(self.hud_position_reading);
        self.vocabulary = sanitize_vocabulary(&self.vocabulary);
        self.submit_keyword = text_or_other(self.submit_keyword.as_str(), "manda ver");
    }

    /// The preferences to start with, from what was found where they are kept.
    /// What cannot be read gives way to the defaults, and whatever was found is
    /// mended. What comes out is to be written back in every case.
    pub fn load(file: SettingsFile, defaults: Settings) -> (loaded: (Settings, WriteBack))
        requires
            defaults.wf(),
            file matches SettingsFile::Read(found) ==> found.wf(),
        ensures
            loaded.0.wf(),
            loaded.0@ == loaded_settings(file, defaults@),
            file matches SettingsFile::Read(found) ==> loaded.0@ == found@.sanitized(),
            !(file is Read) ==> loaded.0@ == defaults@.sanitized(),
            loaded.1 == if file is Missing {
                WriteBack::FirstTime
            } else {
                WriteBack::Again
            },
    {
        let (mut settings, write) = match file {
            SettingsFile::Missing => (defaults, WriteBack::FirstTime),
            SettingsFile::Unreadable => (defaults, WriteBack::Again),
            SettingsFile::Read(found) => (found, WriteBack::Again),
        };
        settings.sanitize();
        (settings, write)
    }

    /// The preferences that the panel sends, as they are kept: mended, and with
    /// the places of the window as they are now. The panel loaded its copy when it
    /// was opened, and the window may have been dragged since.
    pub fn accept(sent: Settings, current: &Settings) -> (kept: Settings)
        requires
            sent.wf(),
        ensures
            kept.wf(),
            kept@ == (SettingsView {
                hud_position_dictation: current.hud_position_dictation,
                hud_position_reading: current.hud_position_reading,
                ..sent@.sanitized()
            }),
    {
        let mut kept = sent;
        kept.sanitize();
        kept.hud_position_dictation = current.hud_position_dictation;
        kept.hud_position_reading = current.hud_position_reading;
        kept
    }

    /// The place remembered for a part of the window.
    pub open spec fn place_of(self, role: HudRole) -> Option<WindowPosition> {
        match role {
            HudRole::Dictation => self.hud_position_dictation,
            HudRole::Reading => self.hud_position_reading,
        }
    }

    /// The place remembered for a part of the window.
    pub fn position_of(&self, role: HudRole) -> (place: Option<WindowPosition>)
        ensures
            place == self.place_of(role),
            role == HudRole::Dictation ==> place == self.hud_position_dictation,
            role == HudRole::Reading ==> place == self.hud_position_reading,
    {
        match role {
            HudRole::Dictation => self.hud_position_dictation,
            HudRole::Reading => self.hud_position_reading,
        }
    }

    /// Remembers where a part of the window was dragged to, and tells whether
    /// that is news.
    pub fn remember_position(&mut self, role: HudRole, position: WindowPosition) -> (changed: bool)
        ensures
            changed == !(old(self).place_of(role) is Some && old(self).place_of(role)->0.same_place(
                position,
            )),
            final(self)@ == if !changed {
                old(self)@
            } else {
                match role {
                    HudRole::Dictation => SettingsView {
                        hud_position_dictation: Some(position),
                        ..old(self)@
                    },
                    HudRole::Reading => SettingsView {
                        hud_position_reading: Some(position),
                        ..old(self)@
                    },
                }
            },
            final(self).shortcuts == old(self).shortcuts,
    {
        let known = match self.position_of(role) {
            Some(place) => place.x.equals(position.x) && place.y.equals(position.y),
            None => false,
        };
        if known {
            return false;
        }
        match role {
            HudRole::Dictation => {
                self.hud_position_dictation = Some(position);
            },
            HudRole::Reading => {
                self.hud_position_reading = Some(position);
            },
        }
        true
    }

    /// Forgets where the parts of the window were dragged to.
    pub fn forget_positions(&mut self)
        ensures
            final(self)@ == (SettingsView {
                hud_position_dictation: None,
                hud_position_reading: None,
                ..old(self)@
            }),
            final(self).shortcuts == old(self).shortcuts,
    {
        self.hud_position_dictation = None;
        self.hud_position_reading = None;
    }

    /// The combination of a command: the one that was chosen, or the default.
    pub open spec fn binding(self, command: Command) -> Seq<char> {
        if self.shortcuts@.contains_key(command.key()) {
            self.shortcuts@[command.key()]
        } else {
            command.default_keys()
        }
    }

    /// The combination of a command: the one that was chosen, or the default.
    pub fn binding_of(&self, command: Command) -> (binding: String)
        requires
            self.wf(),
        ensures
            binding@ == self.binding(command),
            self.shortcuts@.contains_key(command.key()) ==> binding@
                == self.shortcuts@[command.key()],
            !self.shortcuts@.contains_key(command.key()) ==> binding@ == command.default_keys(),
    {
        match self.shortcuts.get(command.id()) {
            Some(texto) => texto,
            None => copy_text(command.default_binding()),
        }
    }
}

// ------------------------------------------------------- from the surroundings

/// The address of the service where none is given.
pub open spec fn default_base_url() -> Seq<char> {
    "http://100.122.39.56:8010"@
}

/// Is there something in this text?
pub open spec fn filled(text: Option<Seq<char>>) -> bool {
    text is Some && !is_blank(text->0)
}

fn is_filled(text: Option<&str>) -> (yes: bool)
    ensures
        yes == filled(optional_str(text)),
{
    match text {
        Some(value) => !blank(value),
        None => false,
    }
}

/// The address of the service: from the panel, else from the environment, else
/// the default.
pub fn base_url(panel: Option<&str>, environment: Option<&str>) -> (url: String)
    ensures
        url@ == if filled(optional_str(panel)) {
            optional_str(panel)->0
        } else if filled(optional_str(environment)) {
            optional_str(environment)->0
        } else {
            default_base_url()
        },
        panel is Some && !is_blank(panel->0@) ==> url@ == panel->0@,
        (panel is None || is_blank(panel->0@)) && environment is Some && !is_blank(
            environment->0@,
        ) ==> url@ == environment->0@,
        (panel is None || is_blank(panel->0@)) && (environment is None || is_blank(
            environment->0@,
        )) ==> url@ == "http://100.122.39.56:8010"@,
{
    if is_filled(panel) {
        if let Some(value) = panel {
            return copy_text(value);
        }
    }
    if is_filled(environment) {
        if let Some(value) = environment {
            return copy_text(value);
        }
    }
    copy_text("http://100.122.39.56:8010")
}

/// The login that a name and a password make: none without both, or where there
/// is nothing to see in the name.
pub open spec fn login(username: Option<Seq<char>>, password: Option<Seq<char>>) -> Option<
    (Seq<char>, Seq<char>),
> {
    if username is Some && password is Some && !is_blank(username->0) {
        Some((username->0, password->0))
    } else {
        None
    }
}

fn login_of(username: Option<String>, password: Option<String>) -> (credentials: Option<
    Credentials,
>)
    ensures
        login_view(credentials) == login(optional(username), optional(password)),
{
    match (username, password) {
        (Some(username), Some(password)) => {
            if blank(username.as_str()) {
                None
            } else {
                Some(Credentials { username, password })
            }
        },
        _ => None,
    }
}

/// The login for the service: from the panel, else from the environment. To have
/// none is fine: the service may ask for none.
pub fn credentials(
    panel_username: Option<String>,
    panel_password: Option<String>,
    username: Option<String>,
    password: Option<String>,
) -> (credentials: Option<Credentials>)
    ensures
        login_view(credentials) == match login(optional(panel_username), optional(panel_password)) {
            Some(given) => Some(given),
            None => login(optional(username), optional(password)),
        },
        ({
            let panel = panel_username is Some && panel_password is Some && !is_blank(
                panel_username->0@,
            );
            let environment = username is Some && password is Some && !is_blank(username->0@);
            &&& credentials is Some <==> panel || environment
            &&& panel ==> credentials->0.username@ == panel_username->0@ && credentials->0.password@
                == panel_password->0@
            &&& !panel && environment ==> credentials->0.username@ == username->0@
                && credentials->0.password@ == password->0@
        }),
{
    match login_of(panel_username, panel_password) {
        Some(given) => Some(given),
        None => login_of(username, password),
    }
}

/// The secret of the bridge that two random numbers make: thirty-two hexadecimal
/// digits.
pub fn gerar_token(first: u64, second: u64) -> (token: String)
    ensures
        token@ == hex_digits(first as nat, 16) + hex_digits(second as nat, 16),
        token@.len() == 32,
{
    let mut token = hex_digits_text(first, 16);
    token.append(hex_digits_text(second, 16).as_str());
    proof {
        lemma_hex_width(first as nat, 16);
        lemma_hex_width(second as nat, 16);
    }
    token
}

proof fn lemma_hex_width(n: nat, width: nat)
    ensures
        hex_digits(n, width).len() == width,
    decreases width,
{
    if width > 0 {
        lemma_hex_width(n / 16, (width - 1) as nat);
    }
}

/// Where the log goes: beside the file of the preferences, so that what explains
/// a mistake is a click away from it.
pub fn log_path(settings_path: &str) -> (path: String)
    ensures
        path@ == directory_part(settings_path@) + "vox.log"@,
{
    let mut path = directory_of(settings_path);
    path.append("vox.log");
    path
}

/// Is this the directory of a package that brings dictation sounds?
pub fn brings_dictation_sounds(name: &str) -> (yes: bool)
    ensures
        yes == starts_with(name@, "Raycast.Raycast_"@),
{
    let chars = to_chars(name);
    chars_start_with(chars.as_slice(), "Raycast.Raycast_")
}

/// Above this size, in bytes, the log is put aside and begun anew.
pub const LIMITE_DO_LOG: u64 = 2 * 1024 * 1024;

/// Is the log large enough to be put aside?
pub fn log_is_full(size: u64) -> (full: bool)
    ensures
        full == (size > LIMITE_DO_LOG),
        full <==> size > 2_097_152,
{
    size > LIMITE_DO_LOG
}

/// What the recognizer is told beforehand: the terms first, then the
/// instructions. The service cuts what is too long, and the terms help more.
pub open spec fn prompt_of(vocabulary: Seq<Seq<char>>, instructions: Seq<char>) -> Seq<char> {
    let terms = "Termos: "@ + join(vocabulary, ", "@) + "."@;
    if vocabulary.len() == 0 {
        trim(instructions)
    } else if is_blank(instructions) {
        terms
    } else {
        terms + " "@ + trim(instructions)
    }
}

/// What the recognizer is told beforehand.
pub fn transcription_prompt(settings: &Settings) -> (prompt: String)
    ensures
        prompt@ == prompt_of(settings@.vocabulary, settings@.custom_instructions),
        settings.vocabulary@.len() == 0 ==> prompt@ == trim(settings.custom_instructions@),
        settings.vocabulary@.len() > 0 && is_blank(settings.custom_instructions@) ==> prompt@
            == "Termos: "@ + join(texts(settings.vocabulary@), ", "@) + "."@,
        settings.vocabulary@.len() > 0 && !is_blank(settings.custom_instructions@) ==> prompt@
            == "Termos: "@ + join(texts(settings.vocabulary@), ", "@) + "."@ + " "@ + trim(
            settings.custom_instructions@,
        ),
{
    let instructions = trimmed(settings.custom_instructions.as_str());
    if settings.vocabulary.len() == 0 {
        return instructions;
    }
    let mut prompt = copy_text("Termos: ");
    prompt.append(join_texts(&settings.vocabulary, ", ").as_str());
    prompt.append(".");
    if !instructions.as_str().is_empty() {
        prompt.append(" ");
        prompt.append(instructions.as_str());
    }
    prompt
}

// ---------------------------------------------------- what mending promises

proof fn lemma_real_terms(terms: Seq<Seq<char>>)
    ensures
        forall|i: int| 0 <= i < real_terms(terms).len() ==> is_term(#[trigger] real_terms(terms)[i]),
    decreases terms.len(),
{
    if terms.len() > 0 {
        let before = real_terms(terms.drop_last());
        lemma_real_terms(terms.drop_last());
        assert forall|i: int| 0 <= i < real_terms(terms).len() implies is_term(
            #[trigger] real_terms(terms)[i],
        ) by {
            if i < before.len() {
                assert(real_terms(terms)[i] == before[i]);
            }
        }
    }
}

proof fn lemma_all_terms_stay(terms: Seq<Seq<char>>)
    requires
        forall|i: int| 0 <= i < terms.len() ==> is_term(#[trigger] terms[i]),
    ensures
        real_terms(terms) == terms,
    decreases terms.len(),
{
    if terms.len() > 0 {
        let front = terms.drop_last();
        assert forall|i: int| 0 <= i < front.len() implies is_term(#[trigger] front[i]) by {
            assert(front[i] == terms[i]);
        }
        lemma_all_terms_stay(front);
        assert(is_term(terms[terms.len() - 1]));
        assert(front.push(terms.last()) =~= terms);
    } else {
        assert(real_terms(terms) =~= terms);
    }
}

/// What is kept of a list is made of its items, and no two of those kept have one
/// key.
proof fn lemma_first_of_each(terms: Seq<Seq<char>>)
    ensures
        ({
            let kept = first_of_each(terms, lowered(terms));
            &&& kept.len() <= terms.len()
            &&& forall|i: int| 0 <= i < kept.len() ==> terms.contains(#[trigger] kept[i])
            &&& lowered(kept).no_duplicates()
            &&& forall|key: Seq<char>|
                lowered(terms).contains(key) <==> #[trigger] lowered(kept).contains(key)
        }),
    decreases terms.len(),
{
    let kept = first_of_each(terms, lowered(terms));
    if terms.len() == 0 {
        assert(lowered(kept) =~= Seq::<Seq<char>>::empty());
        assert(lowered(terms) =~= Seq::<Seq<char>>::empty());
    } else {
        let front = terms.drop_last();
        let last = terms.last();
        let before = first_of_each(front, lowered(front));
        lemma_first_of_each(front);
        assert(lowered(terms) =~= lowered(front).push(lowercase(last)));
        assert(lowered(terms).drop_last() =~= lowered(front));
        let keys = lowered(terms);
        assert forall|i: int| 0 <= i < kept.len() implies terms.contains(#[trigger] kept[i]) by {
            if i < before.len() {
                assert(kept[i] == before[i]);
                let k = choose|k: int| 0 <= k < front.len() && front[k] == before[i];
                assert(terms[k] == kept[i]);
            } else {
                assert(terms[terms.len() - 1] == kept[i]);
            }
        }
        if lowered(front).contains(lowercase(last)) {
            assert(kept == before);
            assert forall|key: Seq<char>| keys.contains(key) <==> #[trigger] lowered(kept).contains(
                key,
            ) by {
                lemma_push_contains(lowered(front), lowercase(last), key);
            }
        } else {
            assert(kept == before.push(last));
            assert(lowered(kept) =~= lowered(before).push(lowercase(last)));
            assert(!lowered(before).contains(lowercase(last)));
            lemma_push_unique(lowered(before), lowercase(last));
            assert forall|key: Seq<char>| keys.contains(key) <==> #[trigger] lowered(kept).contains(
                key,
            ) by {
                lemma_push_contains(lowered(front), lowercase(last), key);
                lemma_push_contains(lowered(before), lowercase(last), key);
            }
        }
    }
}

proof fn lemma_push_contains(list: Seq<Seq<char>>, item: Seq<char>, key: Seq<char>)
    ensures
        list.push(item).contains(key) <==> list.contains(key) || item == key,
{
    let longer = list.push(item);
    if list.contains(key) {
        let i = choose|i: int| 0 <= i < list.len() && list[i] == key;
        assert(longer[i] == key);
    }
    if item == key {
        assert(longer[longer.len() - 1] == key);
    }
    if longer.contains(key) && item != key {
        let i = choose|i: int| 0 <= i < longer.len() && longer[i] == key;
        assert(list[i] == key);
    }
}

proof fn lemma_push_unique(list: Seq<Seq<char>>, item: Seq<char>)
    requires
        list.no_duplicates(),
        !list.contains(item),
    ensures
        list.push(item).no_duplicates(),
{
    let longer = list.push(item);
    assert forall|a: int, b: int|
        0 <= a < longer.len() && 0 <= b < longer.len() && a != b implies longer[a] != longer[b] by {
        if a < list.len() {
            assert(list.contains(list[a]));
        }
        if b < list.len() {
            assert(list.contains(list[b]));
        }
    }
}

proof fn lemma_unique_terms_stay(terms: Seq<Seq<char>>)
    requires
        lowered(terms).no_duplicates(),
    ensures
        first_of_each(terms, lowered(terms)) == terms,
    decreases terms.len(),
{
    if terms.len() == 0 {
        assert(first_of_each(terms, lowered(terms)) =~= terms);
    } else {
        let front = terms.drop_last();
        let keys = lowered(terms);
        assert(keys.drop_last() =~= lowered(front));
        assert forall|a: int, b: int|
            0 <= a < front.len() && 0 <= b < front.len() && a != b implies lowered(front)[a]
            != lowered(front)[b] by {
            assert(keys[a] != keys[b]);
        }
        lemma_unique_terms_stay(front);
        if keys.drop_last().contains(keys.last()) {
            let k = choose|k: int| 0 <= k < keys.len() - 1 && keys.drop_last()[k] == keys.last();
            assert(keys[k] == keys[keys.len() - 1]);
        }
        assert(front.push(terms.last()) =~= terms);
    }
}

/// Is the first list what is left of the second one when some of its items are taken
/// out?
pub open spec fn is_subsequence(part: Seq<Seq<char>>, whole: Seq<Seq<char>>) -> bool
    decreases whole.len(),
{
    part.len() == 0 || (whole.len() > 0 && (is_subsequence(part, whole.drop_last()) || (part.last()
        == whole.last() && is_subsequence(part.drop_last(), whole.drop_last()))))
}

proof fn lemma_subsequence_of_subsequence(
    part: Seq<Seq<char>>,
    middle: Seq<Seq<char>>,
    whole: Seq<Seq<char>>,
)
    requires
        is_subsequence(part, middle),
        is_subsequence(middle, whole),
    ensures
        is_subsequence(part, whole),
    decreases whole.len(),
{
    if part.len() > 0 {
        let rest = whole.drop_last();
        if is_subsequence(middle, rest) {
            lemma_subsequence_of_subsequence(part, middle, rest);
        } else if is_subsequence(part, middle.drop_last()) {
            lemma_subsequence_of_subsequence(part, middle.drop_last(), rest);
        } else {
            lemma_subsequence_of_subsequence(part.drop_last(), middle.drop_last(), rest);
        }
    }
}

proof fn lemma_subsequence_prefix(part: Seq<Seq<char>>, whole: Seq<Seq<char>>, n: int)
    requires
        is_subsequence(part, whole),
        0 <= n <= part.len(),
    ensures
        is_subsequence(part.take(n), whole),
    decreases whole.len(),
{
    if n == part.len() {
        assert(part.take(n) =~= part);
    } else if is_subsequence(part, whole.drop_last()) {
        lemma_subsequence_prefix(part, whole.drop_last(), n);
    } else {
        lemma_subsequence_prefix(part.drop_last(), whole.drop_last(), n);
        assert(part.drop_last().take(n) =~= part.take(n));
    }
}

/// The terms are a subsequence of the list, and every item that is a term is there.
proof fn lemma_terms_in_order(terms: Seq<Seq<char>>)
    ensures
        is_subsequence(real_terms(terms), terms),
        forall|k: int|
            0 <= k < terms.len() && is_term(#[trigger] terms[k]) ==> real_terms(terms).contains(
                terms[k],
            ),
    decreases terms.len(),
{
    if terms.len() > 0 {
        let front = terms.drop_last();
        let genuine = real_terms(terms);
        lemma_terms_in_order(front);
        if is_term(terms.last()) {
            assert(genuine.drop_last() =~= real_terms(front));
        }
        assert forall|k: int| 0 <= k < terms.len() && is_term(#[trigger] terms[k]) implies
            genuine.contains(terms[k]) by {
            if is_term(terms.last()) {
                lemma_push_contains(real_terms(front), terms.last(), terms[k]);
            }
            if k < front.len() {
                assert(front[k] == terms[k]);
            }
        }
    }
}

proof fn lemma_first_in_order(terms: Seq<Seq<char>>, keys: Seq<Seq<char>>)
    requires
        terms.len() == keys.len(),
    ensures
        is_subsequence(first_of_each(terms, keys), terms),
    decreases terms.len(),
{
    if terms.len() > 0 {
        lemma_first_in_order(terms.drop_last(), keys.drop_last());
        let before = first_of_each(terms.drop_last(), keys.drop_last());
        assert(before.push(terms.last()).drop_last() =~= before);
    }
}

/// Where the item at `i` of what is kept stands in the list: no term before it has
/// its key.
proof fn lemma_first_is_kept(terms: Seq<Seq<char>>, i: int) -> (at: int)
    requires
        0 <= i < first_of_each(real_terms(terms), lowered(real_terms(terms))).len(),
    ensures
        0 <= at < terms.len(),
        terms[at] == first_of_each(real_terms(terms), lowered(real_terms(terms)))[i],
        forall|j: int|
            0 <= j < at && is_term(#[trigger] terms[j]) ==> lowercase(terms[j]) != lowercase(
                terms[at],
            ),
    decreases terms.len(),
{
    let genuine = real_terms(terms);
    let front = terms.drop_last();
    let earlier = real_terms(front);
    let before = first_of_each(earlier, lowered(earlier));
    if is_term(terms.last()) {
        assert(genuine.drop_last() =~= earlier);
        assert(lowered(genuine).drop_last() =~= lowered(earlier));
        assert(lowered(genuine).last() == lowercase(terms.last()));
    }
    if i < before.len() {
        let at = lemma_first_is_kept(front, i);
        assert forall|j: int| 0 <= j < at && is_term(#[trigger] terms[j]) implies lowercase(
            terms[j],
        ) != lowercase(terms[at]) by {
            assert(front[j] == terms[j]);
        }
        at
    } else {
        let at = terms.len() - 1;
        lemma_terms_in_order(front);
        assert forall|j: int| 0 <= j < at && is_term(#[trigger] terms[j]) implies lowercase(
            terms[j],
        ) != lowercase(terms[at]) by {
            assert(front[j] == terms[j]);
            let k = choose|k: int| 0 <= k < earlier.len() && earlier[k] == front[j];
            assert(lowered(earlier)[k] == lowercase(terms[j]));
        }
        at
    }
}

/// The vocabulary is what was given, in its order, less what is taken out: of terms
/// that differ in case alone the first is kept, and as long as the limit is not
/// reached each term that was given is there.
pub proof fn law_vocabulary_keeps_the_first(terms: Seq<Seq<char>>)
    ensures
        is_subsequence(clean_vocabulary(terms), terms),
        forall|i: int|
            0 <= i < clean_vocabulary(terms).len() ==> exists|at: int|
                {
                    &&& 0 <= at < terms.len()
                    &&& #[trigger] terms[at] == #[trigger] clean_vocabulary(terms)[i]
                    &&& forall|j: int|
                        0 <= j < at && is_term(#[trigger] terms[j]) ==> lowercase(terms[j])
                            != lowercase(terms[at])
                },
        clean_vocabulary(terms).len() < MAX_VOCABULARY_ITEMS ==> forall|k: int|
            0 <= k < terms.len() && is_term(#[trigger] terms[k]) ==> lowered(
                clean_vocabulary(terms),
            ).contains(lowercase(terms[k])),
{
    let genuine = real_terms(terms);
    let kept = first_of_each(genuine, lowered(genuine));
    let clean = clean_vocabulary(terms);
    lemma_terms_in_order(terms);
    lemma_first_in_order(genuine, lowered(genuine));
    lemma_subsequence_of_subsequence(kept, genuine, terms);
    if kept.len() > MAX_VOCABULARY_ITEMS {
        lemma_subsequence_prefix(kept, terms, MAX_VOCABULARY_ITEMS as int);
    }
    assert forall|i: int| 0 <= i < clean.len() implies exists|at: int|
        {
            &&& 0 <= at < terms.len()
            &&& #[trigger] terms[at] == #[trigger] clean[i]
            &&& forall|j: int|
                0 <= j < at && is_term(#[trigger] terms[j]) ==> lowercase(terms[j]) != lowercase(
                    terms[at],
                )
        } by {
        assert(clean[i] == kept[i]);
        let at = lemma_first_is_kept(terms, i);
        assert(terms[at] == clean[i]);
    }
    if clean.len() < MAX_VOCABULARY_ITEMS {
        lemma_first_of_each(genuine);
        assert forall|k: int| 0 <= k < terms.len() && is_term(#[trigger] terms[k]) implies lowered(
            clean,
        ).contains(lowercase(terms[k])) by {
            let m = choose|m: int| 0 <= m < genuine.len() && genuine[m] == terms[k];
            assert(lowered(genuine)[m] == lowercase(terms[k]));
            assert(lowered(genuine).contains(lowercase(terms[k])));
        }
    }
}

/// The vocabulary holds no more than the limit, each of its items is a term, and
/// no two differ in case alone. What is clean already stays as it is. It is taken
/// from what was given, in its order.
pub proof fn law_vocabulary_is_clean(terms: Seq<Seq<char>>)
    ensures
        ({
            let clean = clean_vocabulary(terms);
            &&& clean.len() <= MAX_VOCABULARY_ITEMS
            &&& forall|i: int| 0 <= i < clean.len() ==> is_term(#[trigger] clean[i])
            &&& forall|i: int, j: int|
                0 <= i < j < clean.len() ==> lowercase(#[trigger] clean[i]) != lowercase(
                    #[trigger] clean[j],
                )
            &&& clean_vocabulary(clean) == clean
            &&& is_subsequence(clean, terms)
        }),
{
    law_vocabulary_keeps_the_first(terms);
    let genuine = real_terms(terms);
    let kept = first_of_each(genuine, lowered(genuine));
    let clean = clean_vocabulary(terms);
    lemma_real_terms(terms);
    lemma_first_of_each(genuine);
    assert forall|i: int| 0 <= i < clean.len() implies is_term(#[trigger] clean[i]) by {
        assert(clean[i] == kept[i]);
        let k = choose|k: int| 0 <= k < genuine.len() && genuine[k] == kept[i];
        assert(is_term(genuine[k]));
    }
    assert forall|i: int, j: int| 0 <= i < clean.len() && 0 <= j < clean.len() && i != j implies lowered(
        clean,
    )[i] != lowered(clean)[j] by {
        assert(lowered(kept)[i] != lowered(kept)[j]);
        assert(lowered(kept)[i] == lowercase(clean[i]));
        assert(lowered(kept)[j] == lowercase(clean[j]));
    }
    assert forall|i: int, j: int| 0 <= i < j < clean.len() implies lowercase(#[trigger] clean[i])
        != lowercase(#[trigger] clean[j]) by {
        assert(lowered(clean)[i] != lowered(clean)[j]);
    }
    lemma_all_terms_stay(clean);
    lemma_unique_terms_stay(clean);
}

/// Is there a trimmed combination for each of the first `count` commands?
spec fn settled(bindings: Map<Seq<char>, Seq<char>>, count: int) -> bool {
    forall|k: int|
        #![trigger Command::ALL@[k]]
        0 <= k < count ==> {
            let key = Command::ALL@[k].key();
            bindings.contains_key(key) && trim(bindings[key]) == bindings[key]
        }
}

proof fn lemma_commands_settled(
    bindings: Map<Seq<char>, Seq<char>>,
    count: nat,
    dictate: Option<Seq<char>>,
    read: Option<Seq<char>>,
    show_widget: Option<Seq<char>>,
)
    requires
        count <= 8,
    ensures
        settled(with_commands(bindings, count, dictate, read, show_widget), count as int),
    decreases count,
{
    if count > 0 {
        let before = with_commands(bindings, (count - 1) as nat, dictate, read, show_widget);
        lemma_commands_settled(bindings, (count - 1) as nat, dictate, read, show_widget);
        let command = Command::ALL@[count - 1];
        let legacy = legacy_of(command, dictate, read, show_widget);
        let chosen = if before.contains_key(command.key()) {
            before[command.key()]
        } else if legacy is Some {
            legacy->0
        } else {
            command.default_keys()
        };
        lemma_trim_again(chosen);
    }
}

proof fn lemma_settled_stays(bindings: Map<Seq<char>, Seq<char>>, count: nat)
    requires
        count <= 8,
        settled(bindings, 8),
    ensures
        with_commands(bindings, count, None, None, None) == bindings,
    decreases count,
{
    if count > 0 {
        lemma_settled_stays(bindings, (count - 1) as nat);
        let command = Command::ALL@[count - 1];
        assert(bindings.contains_key(command.key()));
        assert(bindings.insert(command.key(), bindings[command.key()]) =~= bindings);
    }
}

proof fn lemma_whole_text_is_trimmed(text: Seq<char>)
    requires
        text.len() > 0,
        !is_white(text[0]),
        !is_white(text.last()),
    ensures
        trim(text) == text,
{
    let from = lemma_trim(text);
    let to = from + trim(text).len();
    assert(from == 0) by {
        if from > 0 {
            assert(is_white(text[0]));
        }
    }
    assert(to == text.len()) by {
        if to < text.len() {
            assert(is_white(text[text.len() - 1]));
        }
    }
    assert(text.subrange(0, text.len() as int) =~= text);
}

/// Mending twice is mending once.
pub proof fn law_sanitize_once_is_enough(settings: SettingsView)
    ensures
        settings.sanitized().sanitized() == settings.sanitized(),
{
    let once = settings.sanitized();
    let twice = once.sanitized();
    reveal_strlit("fala-limpa");
    reveal_strlit("manda ver");
    reveal_strlit("#966aff");
    lemma_whole_text_is_trimmed("fala-limpa"@);
    lemma_whole_text_is_trimmed("manda ver"@);
    lemma_whole_text_is_trimmed("#966aff"@);
    assert(is_colour("#966aff"@));
    law_vocabulary_is_clean(settings.vocabulary);
    lemma_commands_settled(
        settings.shortcuts,
        8,
        settings.shortcut_dictate,
        settings.shortcut_read,
        settings.shortcut_show_widget,
    );
    lemma_settled_stays(once.shortcuts, 8);
    assert(twice.shortcuts == once.shortcuts);
    assert(twice.vocabulary == once.vocabulary);
    assert(twice.theme_accent == once.theme_accent);
    assert(twice.speed == once.speed);
    assert(twice.prebuffer_ratio == once.prebuffer_ratio);
    assert(twice.sounds_volume == once.sounds_volume);
    assert(twice.submit_keyword == once.submit_keyword);
    assert(twice.stt_rewrite_preset == once.stt_rewrite_preset);
}

/// What was loaded and written back is loaded again as it is, whatever the defaults
/// are by then.
pub proof fn law_what_is_written_back_is_loaded(
    file: SettingsFile,
    defaults: SettingsView,
    written: Settings,
    later: SettingsView,
)
    requires
        written@ == loaded_settings(file, defaults),
    ensures
        loaded_settings(SettingsFile::Read(written), later) == written@,
{
    match file {
        SettingsFile::Read(found) => law_sanitize_once_is_enough(found@),
        _ => law_sanitize_once_is_enough(defaults),
    }
}

/// Whatever was in the file, what comes out can be used: the speed, the margin
/// and the volume lie in their ranges where they are numbers, and the volume is
/// one; there is a keyword, a preset and a colour; every place is a place; and
/// every command has a combination, if only the empty one.
pub proof fn law_sanitized_settings_are_usable(settings: SettingsView, command: Command)
    ensures
        ({
            let clean = settings.sanitized();
            &&& !settings.speed.is_nan() ==> clean.speed.at_least(Single { bits: MIN_SPEED })
                && (Single { bits: MAX_SPEED }).at_least(clean.speed)
            &&& !settings.prebuffer_ratio.is_nan() ==> clean.prebuffer_ratio.at_least(
                Single { bits: 0 },
            ) && (Single { bits: 0x3f00_0000 }).at_least(clean.prebuffer_ratio)
            &&& clean.sounds_volume.at_least(Single { bits: 0 }) && (Single {
                bits: Single::ONE_BITS,
            }).at_least(clean.sounds_volume)
            &&& 1 <= clean.stt_rewrite_intensity <= 3
            &&& !is_blank(clean.submit_keyword)
            &&& !is_blank(clean.stt_rewrite_preset)
            &&& is_colour(clean.theme_accent)
            &&& clean.hud_position is Some ==> clean.hud_position->0.usable()
            &&& clean.hud_position_dictation is Some
                ==> clean.hud_position_dictation->0.usable()
            &&& clean.hud_position_reading is Some ==> clean.hud_position_reading->0.usable()
            &&& clean.shortcuts.contains_key(command.key())
        }),
{
    reveal_strlit("fala-limpa");
    reveal_strlit("manda ver");
    reveal_strlit("#966aff");
    lemma_whole_text_is_trimmed("fala-limpa"@);
    lemma_whole_text_is_trimmed("manda ver"@);
    lemma_whole_text_is_trimmed("#966aff"@);
    assert(is_colour("#966aff"@));
    lemma_commands_settled(
        settings.shortcuts,
        8,
        settings.shortcut_dictate,
        settings.shortcut_read,
        settings.shortcut_show_widget,
    );
    crate::commands::law_catalogue_is_complete(command);
    let k = choose|k: int| 0 <= k < 8 && Command::ALL@[k] == command;
    assert(Command::ALL@[k].key() == command.key());
}

proof fn lemma_commands_add_up(
    bindings: Map<Seq<char>, Seq<char>>,
    count: nat,
    dictate: Option<Seq<char>>,
    read: Option<Seq<char>>,
    show_widget: Option<Seq<char>>,
    key: Seq<char>,
)
    requires
        count <= 8,
        forall|k: int| #![trigger Command::ALL@[k]] 0 <= k < count ==> Command::ALL@[k].key() != key,
    ensures
        ({
            let after = with_commands(bindings, count, dictate, read, show_widget);
            &&& after.contains_key(key) == bindings.contains_key(key)
            &&& bindings.contains_key(key) ==> after[key] == bindings[key]
        }),
    decreases count,
{
    if count > 0 {
        lemma_commands_add_up(bindings, (count - 1) as nat, dictate, read, show_widget, key);
        assert(Command::ALL@[count - 1].key() != key);
    }
}

proof fn lemma_command_at(
    bindings: Map<Seq<char>, Seq<char>>,
    count: nat,
    dictate: Option<Seq<char>>,
    read: Option<Seq<char>>,
    show_widget: Option<Seq<char>>,
    at: int,
)
    requires
        0 <= at < count <= 8,
    ensures
        ({
            let command = Command::ALL@[at];
            let legacy = legacy_of(command, dictate, read, show_widget);
            let after = with_commands(bindings, count, dictate, read, show_widget);
            &&& after.contains_key(command.key())
            &&& after[command.key()] == with_command(bindings, command, legacy)[command.key()]
        }),
    decreases count,
{
    let command = Command::ALL@[at];
    let last = Command::ALL@[count - 1];
    lemma_catalogue_order();
    if at < count - 1 {
        lemma_command_at(bindings, (count - 1) as nat, dictate, read, show_widget, at);
        assert(command != last);
        crate::commands::law_keys_are_unique(command, last);
    } else {
        assert forall|k: int| #![trigger Command::ALL@[k]] 0 <= k < at implies Command::ALL@[k].key()
            != command.key() by {
            assert(Command::ALL@[k] != command);
            crate::commands::law_keys_are_unique(Command::ALL@[k], command);
        }
        lemma_commands_add_up(
            bindings,
            (count - 1) as nat,
            dictate,
            read,
            show_widget,
            command.key(),
        );
    }
}

/// No command stands in the catalogue twice.
proof fn lemma_catalogue_order()
    ensures
        forall|a: int, b: int|
            #![trigger Command::ALL@[a], Command::ALL@[b]]
            0 <= a < b < 8 ==> Command::ALL@[a] != Command::ALL@[b],
{
    let all = Command::ALL@;
    assert(all[0] == Command::Dictate);
    assert(all[1] == Command::CancelDictation);
    assert(all[2] == Command::ReadSelection);
    assert(all[3] == Command::TogglePlayback);
    assert(all[4] == Command::StopReading);
    assert(all[5] == Command::ToggleCaptions);
    assert(all[6] == Command::ShowWidget);
    assert(all[7] == Command::OpenSettings);
}

/// Mending keeps what the user chose: a combination in the file prevails over the
/// one from before there was a catalogue, and that one over the default. It is
/// only trimmed. What is in the file under another key stays as it is.
pub proof fn law_chosen_combinations_prevail(settings: SettingsView, command: Command, key: Seq<char>)
    ensures
        ({
            let clean = settings.sanitized();
            let legacy = legacy_of(
                command,
                settings.shortcut_dictate,
                settings.shortcut_read,
                settings.shortcut_show_widget,
            );
            &&& clean.shortcuts.contains_key(command.key())
            &&& clean.shortcuts[command.key()] == trim(
                if settings.shortcuts.contains_key(command.key()) {
                    settings.shortcuts[command.key()]
                } else if legacy is Some {
                    legacy->0
                } else {
                    command.default_keys()
                },
            )
            &&& (forall|other: Command| #[trigger] other.key() != key) ==> {
                &&& clean.shortcuts.contains_key(key) == settings.shortcuts.contains_key(key)
                &&& settings.shortcuts.contains_key(key) ==> clean.shortcuts[key]
                    == settings.shortcuts[key]
            }
        }),
{
    crate::commands::law_catalogue_is_complete(command);
    let at = choose|at: int| 0 <= at < 8 && Command::ALL@[at] == command;
    let dictate = settings.shortcut_dictate;
    let read = settings.shortcut_read;
    let show_widget = settings.shortcut_show_widget;
    lemma_command_at(settings.shortcuts, 8, dictate, read, show_widget, at);
    if forall|other: Command| #[trigger] other.key() != key {
        lemma_commands_add_up(settings.shortcuts, 8, dictate, read, show_widget, key);
    }
}


/// The vocabulary by its numbers: it holds 50 terms at most, of 1 to 50 characters
/// each. Of what was given it holds each term that is no shorter and no longer and
/// that no earlier term repeats, unless it is full.
pub proof fn law_vocabulary_by_its_numbers(terms: Seq<Seq<char>>, k: int)
    requires
        0 <= k < terms.len(),
    ensures
        ({
            let clean = clean_vocabulary(terms);
            &&& clean.len() <= 50
            &&& forall|i: int|
                0 <= i < clean.len() ==> 1 <= trim(#[trigger] clean[i]).len() <= 50
            &&& clean.len() < 50 && 1 <= trim(terms[k]).len() <= 50 && (forall|j: int|
                0 <= j < k && 1 <= trim(#[trigger] terms[j]).len() <= 50 ==> lowercase(terms[j])
                    != lowercase(terms[k])) ==> clean.contains(terms[k])
        }),
{
    let clean = clean_vocabulary(terms);
    law_vocabulary_is_clean(terms);
    law_vocabulary_keeps_the_first(terms);
    assert forall|i: int| 0 <= i < clean.len() implies 1 <= trim(#[trigger] clean[i]).len()
        <= 50 by {
        assert(is_term(clean[i]));
    }
    if clean.len() < 50 && 1 <= trim(terms[k]).len() <= 50 && (forall|j: int|
        0 <= j < k && 1 <= trim(#[trigger] terms[j]).len() <= 50 ==> lowercase(terms[j])
            != lowercase(terms[k])) {
        assert(is_term(terms[k]));
        assert(lowered(clean).contains(lowercase(terms[k])));
        let i = choose|i: int| 0 <= i < lowered(clean).len() && lowered(clean)[i] == lowercase(
            terms[k],
        );
        assert(lowercase(clean[i]) == lowercase(terms[k]));
        let at = choose|at: int|
            {
                &&& 0 <= at < terms.len()
                &&& #[trigger] terms[at] == clean[i]
                &&& forall|j: int|
                    0 <= j < at && is_term(#[trigger] terms[j]) ==> lowercase(terms[j])
                        != lowercase(terms[at])
            };
        assert(is_term(clean[i]));
        if at < k {
            assert(1 <= trim(terms[at]).len() <= 50);
        }
        if k < at {
            assert(is_term(terms[k]));
        }
        assert(clean[i] == terms[k]);
    }
}

/// Mending touches only what it has to. A number in its range stays, and one outside
/// it becomes the nearest end of the range: the speed from 0.5 to 2, the margin from
/// 0 to 0.5, the volume from 0 to 1 and full where it is none, the intensity from 1
/// to 3. A text that can be used stays, and so does a place.
pub proof fn law_mending_touches_only_what_is_wrong(settings: SettingsView)
    ensures
        ({
            let clean = settings.sanitized();
            let speed = settings.speed.bits;
            let margin = settings.prebuffer_ratio.bits;
            let volume = settings.sounds_volume.bits;
            &&& 0x3f00_0000 <= speed <= 0x4000_0000 ==> clean.speed.bits == speed
            &&& speed < 0x3f00_0000 || 0x8000_0000 <= speed <= 0xff80_0000 ==> clean.speed.bits
                == 0x3f00_0000
            &&& 0x4000_0000 < speed <= 0x7f80_0000 ==> clean.speed.bits == 0x4000_0000
            &&& margin <= 0x3f00_0000 ==> clean.prebuffer_ratio.bits == margin
            &&& 0x3f00_0000 < margin <= 0x7f80_0000 ==> clean.prebuffer_ratio.bits == 0x3f00_0000
            &&& 0x8000_0000 < margin <= 0xff80_0000 ==> clean.prebuffer_ratio.bits == 0
            &&& volume <= 0x3f80_0000 ==> clean.sounds_volume.bits == volume
            &&& 0x3f80_0000 < volume < 0x8000_0000 ==> clean.sounds_volume.bits == 0x3f80_0000
            &&& 0x8000_0000 < volume < 0xff80_0000 ==> clean.sounds_volume.bits == 0
            &&& 0xff80_0000 <= volume ==> clean.sounds_volume.bits == 0x3f80_0000
            &&& 1 <= settings.stt_rewrite_intensity <= 3 ==> clean.stt_rewrite_intensity
                == settings.stt_rewrite_intensity
            &&& settings.stt_rewrite_intensity == 0 ==> clean.stt_rewrite_intensity == 1
            &&& settings.stt_rewrite_intensity > 3 ==> clean.stt_rewrite_intensity == 3
            &&& clean.stt_rewrite_preset == if is_blank(settings.stt_rewrite_preset) {
                "fala-limpa"@
            } else {
                settings.stt_rewrite_preset
            }
            &&& clean.submit_keyword == if is_blank(settings.submit_keyword) {
                "manda ver"@
            } else {
                settings.submit_keyword
            }
            &&& clean.theme_accent == settings.theme_accent || clean.theme_accent == "#966aff"@
            &&& clean.theme_accent == settings.theme_accent <== {
                let colour = trim(settings.theme_accent);
                &&& colour.len() == 7 && colour[0] == '#'
                &&& forall|i: int|
                    1 <= i < 7 ==> "0123456789abcdefABCDEF"@.contains(#[trigger] colour[i])
            }
            &&& settings.hud_position is Some && settings.hud_position->0.x.finite()
                && settings.hud_position->0.y.finite() ==> clean.hud_position
                == settings.hud_position
            &&& settings.hud_position is Some && !(settings.hud_position->0.x.finite()
                && settings.hud_position->0.y.finite()) ==> clean.hud_position is None
            &&& settings.hud_position_dictation is Some && settings.hud_position_dictation->0.x.finite()
                && settings.hud_position_dictation->0.y.finite() ==> clean.hud_position_dictation
                == settings.hud_position_dictation
            &&& settings.hud_position_dictation is Some && !(settings.hud_position_dictation->0.x.finite()
                && settings.hud_position_dictation->0.y.finite()) ==> clean.hud_position_dictation is None
            &&& settings.hud_position_reading is Some && settings.hud_position_reading->0.x.finite()
                && settings.hud_position_reading->0.y.finite() ==> clean.hud_position_reading
                == settings.hud_position_reading
            &&& settings.hud_position_reading is Some && !(settings.hud_position_reading->0.x.finite()
                && settings.hud_position_reading->0.y.finite()) ==> clean.hud_position_reading is None
        }),
{
    reveal_strlit("0123456789abcdefABCDEF");
    let digits = "0123456789abcdefABCDEF"@;
    assert(digits.len() == 22);
    let colour = trim(settings.theme_accent);
    if colour.len() == 7 && colour[0] == '#' && (forall|i: int|
        1 <= i < 7 ==> digits.contains(#[trigger] colour[i])) {
        assert forall|i: int| 1 <= i < 7 implies is_hex_digit(#[trigger] colour[i]) by {
            assert(digits.contains(colour[i]));
            let k = choose|k: int| 0 <= k < digits.len() && digits[k] == colour[i];
            assert(is_hex_digit(digits[k]));
        }
        assert(is_colour(settings.theme_accent));
    }
}

/// What has nothing to be mended is kept as it was chosen.
pub proof fn law_mending_keeps_the_rest(settings: SettingsView)
    ensures
        ({
            let clean = settings.sanitized();
            &&& clean.input_device == settings.input_device
            &&& clean.transcription_model == settings.transcription_model
            &&& clean.output_action == settings.output_action
            &&& clean.submit_mode == settings.submit_mode
            &&& clean.submit_key == settings.submit_key
            &&& clean.live_transcription == settings.live_transcription
            &&& clean.show_live_transcription == settings.show_live_transcription
            &&& clean.open_reader_on_read == settings.open_reader_on_read
            &&& clean.reading_captions == settings.reading_captions
            &&& clean.normalize_before_reading == settings.normalize_before_reading
            &&& clean.narrate_tables == settings.narrate_tables
            &&& clean.bridge_enabled == settings.bridge_enabled
            &&& clean.bridge_port == settings.bridge_port
            &&& clean.bridge_token == settings.bridge_token
            &&& clean.custom_instructions == settings.custom_instructions
            &&& clean.stt_rewrite_enabled == settings.stt_rewrite_enabled
            &&& clean.stt_rewrite_model == settings.stt_rewrite_model
            &&& clean.voice == settings.voice
            &&& clean.sounds_enabled == settings.sounds_enabled
            &&& clean.external_sounds_directory == settings.external_sounds_directory
            &&& clean.service_enabled == settings.service_enabled
            &&& clean.start_with_windows == settings.start_with_windows
            &&& clean.shortcut_dictate is None && clean.shortcut_read is None
                && clean.shortcut_show_widget is None
        }),
{
}

/// What was chosen before there was a catalogue moves to the command that it was
/// chosen for, where nothing was chosen for that one since; every other command
/// without a choice gets its default.
pub proof fn law_old_choices_move_in(settings: SettingsView, command: Command)
    requires
        !settings.shortcuts.contains_key(command.key()),
    ensures
        ({
            let got = settings.sanitized().shortcuts[command.key()];
            let old_choice = if command == Command::Dictate {
                settings.shortcut_dictate
            } else if command == Command::ReadSelection {
                settings.shortcut_read
            } else if command == Command::ShowWidget {
                settings.shortcut_show_widget
            } else {
                None
            };
            &&& old_choice matches Some(keys) ==> got == trim(keys)
            &&& old_choice is None ==> got == trim(command.default_keys())
        }),
{
    law_chosen_combinations_prevail(settings, command, command.key());
}

/// Sixteen to the power of a width.
pub open spec fn sixteens(width: nat) -> nat
    decreases width,
{
    if width == 0 {
        1
    } else {
        16 * sixteens((width - 1) as nat)
    }
}

proof fn lemma_hex_tells_apart(a: nat, b: nat, width: nat)
    requires
        a < sixteens(width),
        b < sixteens(width),
        hex_digits(a, width) == hex_digits(b, width),
    ensures
        a == b,
    decreases width,
{
    if width > 0 {
        let less = (width - 1) as nat;
        let x = hex_digits(a, width);
        let y = hex_digits(b, width);
        assert(x.last() == y.last());
        assert(x.drop_last() =~= hex_digits(a / 16, less));
        assert(y.drop_last() =~= hex_digits(b / 16, less));
        assert(a % 16 == b % 16);
        lemma_hex_tells_apart(a / 16, b / 16, less);
    }
}

/// Two secrets are the same only where both of their numbers are: none of what is
/// random in them is lost.
pub proof fn law_secrets_differ(a: u64, b: u64, c: u64, d: u64)
    requires
        hex_digits(a as nat, 16) + hex_digits(b as nat, 16) == hex_digits(c as nat, 16)
            + hex_digits(d as nat, 16),
    ensures
        a == c,
        b == d,
{
    let first = hex_digits(a as nat, 16);
    let third = hex_digits(c as nat, 16);
    let left = first + hex_digits(b as nat, 16);
    let right = third + hex_digits(d as nat, 16);
    lemma_hex_width(a as nat, 16);
    lemma_hex_width(b as nat, 16);
    lemma_hex_width(c as nat, 16);
    lemma_hex_width(d as nat, 16);
    assert(left.take(16) =~= first);
    assert(right.take(16) =~= third);
    assert(left.skip(16) =~= hex_digits(b as nat, 16));
    assert(right.skip(16) =~= hex_digits(d as nat, 16));
    reveal_with_fuel(sixteens, 17);
    assert(sixteens(16) == 0x1_0000_0000_0000_0000);
    lemma_hex_tells_apart(a as nat, c as nat, 16);
    lemma_hex_tells_apart(b as nat, d as nat, 16);
}

} // verus!
