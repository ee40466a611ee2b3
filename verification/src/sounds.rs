//! Which sound stands for what happens.
//!
//! The sounds are the main channel when nobody looks at the screen. The four of
//! the reading travel with the program; the three of the dictation are taken
//! from a directory where somebody has them, and stand in for by those of the
//! reading where nobody does.

use vstd::prelude::*;

verus! {

/// Each event of the app that has a sound.
#[derive(Debug, Clone, Copy, PartialEq, Eq, Structural)]
pub enum Cue {
    /// The dictation has begun.
    DictationStart,
    /// The text was delivered.
    DictationSuccess,
    /// The dictation failed.
    DictationFailure,
    /// The reading has begun.
    SpeakStart,
    /// The reading is over.
    SpeakComplete,
    /// The reading is paused.
    SpeakPause,
    /// The reading failed.
    SpeakError,
}

impl Cue {
    /// The file of the sound that travels with the program, for the events that
    /// have one.
    pub open spec fn embedded_file(self) -> Option<Seq<char>> {
        match self {
            Cue::SpeakStart => Some("speak-start.wav"@),
            Cue::SpeakComplete => Some("speak-complete.wav"@),
            Cue::SpeakPause => Some("speak-pause.wav"@),
            Cue::SpeakError => Some("speak-error.wav"@),
            _ => None,
        }
    }

    /// The event whose sound stands in where an event has none of its own.
    pub open spec fn stand_in(self) -> Option<Cue> {
        match self {
            Cue::DictationStart => Some(Cue::SpeakStart),
            Cue::DictationSuccess => Some(Cue::SpeakComplete),
            Cue::DictationFailure => Some(Cue::SpeakError),
            _ => None,
        }
    }

    /// The file that is looked for in the directory of dictation sounds.
    pub open spec fn external_file(self) -> Option<Seq<char>> {
        match self {
            Cue::DictationStart => Some("modern-start.aif"@),
            Cue::DictationSuccess => Some("modern-success.aif"@),
            Cue::DictationFailure => Some("modern-failure.aif"@),
            _ => None,
        }
    }

    /// The file of the sound that travels with the program.
    pub fn embedded(self) -> (file: Option<&'static str>)
        ensures
            match file {
                Some(name) => self.embedded_file() == Some(name@),
                None => self.embedded_file() is None,
            },
    {
        match self {
            Cue::SpeakStart => Some("speak-start.wav"),
            Cue::SpeakComplete => Some("speak-complete.wav"),
            Cue::SpeakPause => Some("speak-pause.wav"),
            Cue::SpeakError => Some("speak-error.wav"),
            Cue::DictationStart | Cue::DictationSuccess | Cue::DictationFailure => None,
        }
    }

    /// The event whose sound stands in where this one has none of its own.
    pub fn fallback(self) -> (cue: Option<Cue>)
        ensures
            cue == self.stand_in(),
            self == Cue::DictationStart ==> cue == Some(Cue::SpeakStart),
            self == Cue::DictationSuccess ==> cue == Some(Cue::SpeakComplete),
            self == Cue::DictationFailure ==> cue == Some(Cue::SpeakError),
    {
        match self {
            Cue::DictationStart => Some(Cue::SpeakStart),
            Cue::DictationSuccess => Some(Cue::SpeakComplete),
            Cue::DictationFailure => Some(Cue::SpeakError),
            _ => None,
        }
    }

    /// The file that is looked for in the directory of dictation sounds.
    pub fn external_name(self) -> (file: Option<&'static str>)
        ensures
            match file {
                Some(name) => self.external_file() == Some(name@),
                None => self.external_file() is None,
            },
    {
        match self {
            Cue::DictationStart => Some("modern-start.aif"),
            Cue::DictationSuccess => Some("modern-success.aif"),
            Cue::DictationFailure => Some("modern-failure.aif"),
            _ => None,
        }
    }
}

/// The sounds that were found on disk, and whether anything sounds at all.
#[derive(Debug)]
pub struct SoundBank {
    pub external: Vec<(Cue, Vec<u8>)>,
    pub enabled: bool,
}

/// Where the bytes of a sound are.
#[derive(Debug)]
pub enum Sound {
    /// Read from disk.
    External(Vec<u8>),
    /// In the file of this name, which travels with the program.
    Embedded(&'static str),
}

/// Where the bytes of a sound are.
pub ghost enum SoundView {
    External(Seq<u8>),
    Embedded(Seq<char>),
}

impl View for Sound {
    type V = SoundView;

    open spec fn view(&self) -> SoundView {
        match self {
            Sound::External(bytes) => SoundView::External(bytes@),
            Sound::Embedded(name) => SoundView::Embedded(name@),
        }
    }
}

/// The events and bytes of a bank.
pub open spec fn bank_view(external: Seq<(Cue, Vec<u8>)>) -> Seq<(Cue, Seq<u8>)> {
    external.map_values(|entry: (Cue, Vec<u8>)| (entry.0, entry.1@))
}

/// The first sound on disk for an event.
pub open spec fn found_for(external: Seq<(Cue, Seq<u8>)>, cue: Cue) -> Option<Seq<u8>>
    decreases external.len(),
{
    if external.len() == 0 {
        None
    } else if external[0].0 == cue {
        Some(external[0].1)
    } else {
        found_for(external.drop_first(), cue)
    }
}

/// The sound of an event: the one on disk, else the one that travels with the
/// program, else the one that stands in for it.
pub open spec fn sound_for(external: Seq<(Cue, Seq<u8>)>, cue: Cue) -> Option<SoundView> {
    if found_for(external, cue) is Some {
        Some(SoundView::External(found_for(external, cue)->0))
    } else if cue.embedded_file() is Some {
        Some(SoundView::Embedded(cue.embedded_file()->0))
    } else {
        match cue.stand_in() {
            Some(other) => match other.embedded_file() {
                Some(name) => Some(SoundView::Embedded(name)),
                None => None,
            },
            None => None,
        }
    }
}

/// The entries of a directory that were there, in order.
pub open spec fn present(files: Seq<(Cue, Option<Seq<u8>>)>) -> Seq<(Cue, Seq<u8>)>
    decreases files.len(),
{
    if files.len() == 0 {
        Seq::empty()
    } else {
        match files.last().1 {
            Some(bytes) => present(files.drop_last()).push((files.last().0, bytes)),
            None => present(files.drop_last()),
        }
    }
}

/// What was read for each event.
pub open spec fn files_view(files: Seq<(Cue, Option<Vec<u8>>)>) -> Seq<(Cue, Option<Seq<u8>>)> {
    files.map_values(
        |entry: (Cue, Option<Vec<u8>>)|
            (
                entry.0,
                match entry.1 {
                    Some(bytes) => Some(bytes@),
                    None => None,
                },
            ),
    )
}

impl SoundBank {
    /// Everything sounds, and nothing was found on disk yet.
    pub fn new() -> (bank: SoundBank)
        ensures
            bank.enabled,
            bank.external@.len() == 0,
    {
        SoundBank { external: Vec::new(), enabled: true }
    }

    pub fn set_enabled(&mut self, enabled: bool)
        ensures
            final(self).enabled == enabled,
            final(self).external == old(self).external,
    {
        self.enabled = enabled;
    }

    /// The events whose sound is looked for on disk.
    pub fn external_cues() -> (cues: Vec<Cue>)
        ensures
            cues@ == seq![Cue::DictationStart, Cue::DictationSuccess, Cue::DictationFailure],
            forall|cue: Cue| cues@.contains(cue) <==> cue.external_file() is Some,
    {
        let cues = vec![Cue::DictationStart, Cue::DictationSuccess, Cue::DictationFailure];
        proof {
            assert(cues@ =~= seq![
                Cue::DictationStart,
                Cue::DictationSuccess,
                Cue::DictationFailure,
            ]);
            assert(cues@[0] == Cue::DictationStart);
            assert(cues@[1] == Cue::DictationSuccess);
            assert(cues@[2] == Cue::DictationFailure);
        }
        cues
    }

    /// Takes what was read from the directory of dictation sounds, in place of
    /// what was there, and tells how many there are. A file that is missing is no
    /// error.
    pub fn load_external_dictation_sounds(&mut self, files: Vec<(Cue, Option<Vec<u8>>)>) -> (loaded:
        usize)
        ensures
            bank_view(final(self).external@) == present(files_view(files@)),
            loaded == final(self).external@.len(),
            final(self).enabled == old(self).enabled,
    {
        let mut external: Vec<(Cue, Vec<u8>)> = Vec::new();
        let ghost all = files_view(files@);
        let mut i: usize = 0;
        while i < files.len()
            invariant
                i <= files.len(),
                all == files_view(files@),
                bank_view(external@) == present(all.take(i as int)),
            decreases files.len() - i,
        {
            proof {
                assert(all.take(i + 1).drop_last() =~= all.take(i as int));
            }
            let ghost before = bank_view(external@);
            match &files[i].1 {
                Some(bytes) => {
                    let copy = vstd::slice::slice_to_vec(bytes.as_slice());
                    let ghost entry = (files@[i as int].0, copy@);
                    external.push((files[i].0, copy));
                    proof {
                        assert(bank_view(external@) =~= before.push(entry));
                    }
                },
                None => {},
            }
            i = i + 1;
        }
        proof {
            assert(all.take(all.len() as int) =~= all);
        }
        let loaded: usize = external.len();
        self.external = external;
        loaded
    }

    /// The sound to play for an event, or none while sounds are off.
    pub fn play(&self, cue: Cue) -> (sound: Option<Sound>)
        ensures
            match sound {
                Some(chosen) => self.enabled && sound_for(bank_view(self.external@), cue) == Some(
                    chosen@,
                ),
                None => !self.enabled || sound_for(bank_view(self.external@), cue) is None,
            },
    {
        if !self.enabled {
            return None;
        }
        let ghost bank = bank_view(self.external@);
        let mut i: usize = 0;
        proof {
            assert(bank.skip(0) =~= bank);
        }
        while i < self.external.len()
            invariant
                i <= self.external.len(),
                self.enabled,
                bank == bank_view(self.external@),
                found_for(bank, cue) == found_for(bank.skip(i as int), cue),
            decreases self.external.len() - i,
        {
            proof {
                assert(bank.skip(i as int).drop_first() =~= bank.skip(i + 1));
            }
            if self.external[i].0 == cue {
                return Some(
                    Sound::External(vstd::slice::slice_to_vec(self.external[i].1.as_slice())),
                );
            }
            i = i + 1;
        }
        match cue.embedded() {
            Some(name) => Some(Sound::Embedded(name)),
            None => match cue.fallback() {
                Some(other) => match other.embedded() {
                    Some(name) => Some(Sound::Embedded(name)),
                    None => None,
                },
                None => None,
            },
        }
    }
}

/// No event goes unheard for want of a sound: whatever was found on disk, there
/// is one for each.
pub proof fn law_every_cue_sounds(external: Seq<(Cue, Seq<u8>)>, cue: Cue)
    ensures
        sound_for(external, cue) is Some,
{
}


/// What was found on disk for an event is what is heard for it, the first of what was
/// found. Where nothing was, the event is heard by the sound that travels with the
/// program: its own or, for the dictation, that of the reading that means the same.
pub proof fn law_what_is_heard(external: Seq<(Cue, Seq<u8>)>, cue: Cue, i: int)
    requires
        0 <= i <= external.len(),
        i < external.len() ==> external[i].0 == cue,
        forall|j: int| 0 <= j < i ==> (#[trigger] external[j]).0 != cue,
    ensures
        i < external.len() ==> sound_for(external, cue) == Some(
            SoundView::External(external[i].1),
        ),
        i == external.len() ==> sound_for(external, cue) == Some(
            SoundView::Embedded(
                if cue == Cue::SpeakStart || cue == Cue::DictationStart {
                    "speak-start.wav"@
                } else if cue == Cue::SpeakComplete || cue == Cue::DictationSuccess {
                    "speak-complete.wav"@
                } else if cue == Cue::SpeakError || cue == Cue::DictationFailure {
                    "speak-error.wav"@
                } else {
                    "speak-pause.wav"@
                },
            ),
        ),
{
    lemma_found(external, cue, i);
}

proof fn lemma_found(external: Seq<(Cue, Seq<u8>)>, cue: Cue, i: int)
    requires
        0 <= i <= external.len(),
        i < external.len() ==> external[i].0 == cue,
        forall|j: int| 0 <= j < i ==> (#[trigger] external[j]).0 != cue,
    ensures
        i < external.len() ==> found_for(external, cue) == Some(external[i].1),
        i == external.len() ==> found_for(external, cue) is None,
    decreases external.len(),
{
    if i > 0 {
        let rest = external.drop_first();
        assert(external[0].0 != cue);
        assert forall|j: int| 0 <= j < i - 1 implies (#[trigger] rest[j]).0 != cue by {
            assert(rest[j] == external[j + 1]);
        }
        if i < external.len() {
            assert(rest[i - 1] == external[i]);
        }
        lemma_found(rest, cue, i - 1);
    }
}

/// What was read from the directory is taken as it was read: each file that was
/// there, and none that was not.
pub proof fn law_what_was_read_is_taken(files: Seq<(Cue, Option<Seq<u8>>)>, cue: Cue, bytes: Seq<u8>)
    ensures
        present(files).contains((cue, bytes)) <==> files.contains((cue, Some(bytes))),
        present(files).len() <= files.len(),
    decreases files.len(),
{
    if files.len() > 0 {
        let front = files.drop_last();
        let taken = present(files);
        law_what_was_read_is_taken(front, cue, bytes);
        if files.contains((cue, Some(bytes))) {
            let i = choose|i: int| 0 <= i < files.len() && files[i] == (cue, Some(bytes));
            if i < front.len() {
                assert(front[i] == files[i]);
                let k = choose|k: int| 0 <= k < present(front).len() && present(front)[k] == (
                    cue,
                    bytes,
                );
                assert(taken[k] == (cue, bytes));
            } else {
                assert(taken[taken.len() - 1] == (cue, bytes));
            }
        }
        if taken.contains((cue, bytes)) {
            let k = choose|k: int| 0 <= k < taken.len() && taken[k] == (cue, bytes);
            if k < present(front).len() {
                assert(present(front)[k] == taken[k]);
                let i = choose|i: int| 0 <= i < front.len() && front[i] == (cue, Some(bytes));
                assert(files[i] == (cue, Some(bytes)));
            } else {
                assert(files[files.len() - 1] == (cue, Some(bytes)));
            }
        }
    }
}

} // verus!
