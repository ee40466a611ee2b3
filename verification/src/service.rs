//! What the app does when it is asked: by a shortcut, from the panel, by the
//! extension, or by a window that is closed.

use vstd::prelude::*;

use crate::api::{reading_chunks, split_text};
use crate::commands::Command;
use crate::config::{Settings, SettingsView};
use crate::paste::SelectionSource;
use crate::reading::ReadingState;
use crate::text::{blank, copy_text, is_blank, optional, same_text, texts};

verus! {

/// What a command does.
#[derive(Debug, Clone, Copy, PartialEq, Eq, Structural)]
pub enum Action {
    /// Begins a dictation, or ends and delivers it.
    ToggleDictation,
    CancelDictation,
    /// What the shortcut of the reading does in the state it is in.
    Reading(ReadingKey),
    /// Stops the reading, and tells the extension that it is over.
    StopReading,
    /// The window is told to open or to close the caption.
    Captions(bool),
    ShowWidget,
    OpenSettings,
}

/// What a key of the reading does.
#[derive(Debug, Clone, Copy, PartialEq, Eq, Structural)]
pub enum ReadingKey {
    Pause,
    Resume,
    /// The selection is copied, to be read.
    CopySelection,
    Nothing,
}

/// One shortcut for three verbs: it pauses what plays, resumes what is paused, and
/// otherwise begins to read the selection.
pub open spec fn reading_key(state: ReadingState) -> ReadingKey {
    match state {
        ReadingState::Playing => ReadingKey::Pause,
        ReadingState::Paused => ReadingKey::Resume,
        _ => ReadingKey::CopySelection,
    }
}

/// Only pauses and resumes: who wants a pause must not begin another reading.
pub open spec fn playback_key(state: ReadingState) -> ReadingKey {
    match state {
        ReadingState::Playing => ReadingKey::Pause,
        ReadingState::Paused => ReadingKey::Resume,
        _ => ReadingKey::Nothing,
    }
}

/// What a command does in a state.
pub open spec fn action_of(command: Command, state: ReadingState, captions: bool) -> Action {
    match command {
        Command::Dictate => Action::ToggleDictation,
        Command::CancelDictation => Action::CancelDictation,
        Command::ReadSelection => Action::Reading(reading_key(state)),
        Command::TogglePlayback => Action::Reading(playback_key(state)),
        Command::StopReading => Action::StopReading,
        Command::ToggleCaptions => Action::Captions(!captions),
        Command::ShowWidget => Action::ShowWidget,
        Command::OpenSettings => Action::OpenSettings,
    }
}

/// What the shortcut of the reading does.
pub fn toggle_reading_shortcut(state: ReadingState) -> (key: ReadingKey)
    ensures
        key == reading_key(state),
        key == ReadingKey::Pause <==> state == ReadingState::Playing,
        key == ReadingKey::Resume <==> state == ReadingState::Paused,
        key != ReadingKey::Nothing,
{
    match state {
        ReadingState::Playing => ReadingKey::Pause,
        ReadingState::Paused => ReadingKey::Resume,
        _ => ReadingKey::CopySelection,
    }
}

/// What the key that pauses and resumes does.
pub fn toggle_reading(state: ReadingState) -> (key: ReadingKey)
    ensures
        key == playback_key(state),
        key == ReadingKey::Pause <==> state == ReadingState::Playing,
        key == ReadingKey::Resume <==> state == ReadingState::Paused,
        key != ReadingKey::CopySelection,
{
    match state {
        ReadingState::Playing => ReadingKey::Pause,
        ReadingState::Paused => ReadingKey::Resume,
        _ => ReadingKey::Nothing,
    }
}

/// What a command does.
pub fn executar(comando: Command, state: ReadingState, captions: bool) -> (action: Action)
    ensures
        action == action_of(comando, state, captions),
        action == Action::ToggleDictation <==> comando == Command::Dictate,
        action == Action::CancelDictation <==> comando == Command::CancelDictation,
        action == Action::StopReading <==> comando == Command::StopReading,
        action == Action::ShowWidget <==> comando == Command::ShowWidget,
        action == Action::OpenSettings <==> comando == Command::OpenSettings,
        comando == Command::ToggleCaptions ==> action == Action::Captions(!captions),
        comando == Command::ReadSelection ==> action == Action::Reading(
            if state == ReadingState::Playing {
                ReadingKey::Pause
            } else if state == ReadingState::Paused {
                ReadingKey::Resume
            } else {
                ReadingKey::CopySelection
            },
        ),
        comando == Command::TogglePlayback ==> action == Action::Reading(
            if state == ReadingState::Playing {
                ReadingKey::Pause
            } else if state == ReadingState::Paused {
                ReadingKey::Resume
            } else {
                ReadingKey::Nothing
            },
        ),
{
    match comando {
        Command::Dictate => Action::ToggleDictation,
        Command::CancelDictation => Action::CancelDictation,
        Command::ReadSelection => Action::Reading(toggle_reading_shortcut(state)),
        Command::TogglePlayback => Action::Reading(toggle_reading(state)),
        Command::StopReading => Action::StopReading,
        Command::ToggleCaptions => Action::Captions(!captions),
        Command::ShowWidget => Action::ShowWidget,
        Command::OpenSettings => Action::OpenSettings,
    }
}

/// The key that pauses and resumes never begins a reading.
pub proof fn law_pausing_never_begins(state: ReadingState, captions: bool)
    ensures
        action_of(Command::TogglePlayback, state, captions) != Action::Reading(
            ReadingKey::CopySelection,
        ),
{
}

// ----------------------------------------------------------- what there is to read

/// What follows once the selection was copied.
#[derive(Debug)]
pub enum AfterCopy {
    /// This text is read.
    Speak(String),
    /// There is nothing to read: the window of the text is opened, for something
    /// to be put in by hand.
    OpenReader,
}

/// What follows once the selection was copied, or could not be.
pub fn after_copy(copied: Option<(String, SelectionSource)>) -> (next: AfterCopy)
    ensures
        match next {
            AfterCopy::Speak(text) => copied is Some && (copied->0).0 == text && !is_blank(text@),
            AfterCopy::OpenReader => copied is None || is_blank((copied->0).0@),
        },
{
    match copied {
        Some((text, _)) => {
            if blank(text.as_str()) {
                AfterCopy::OpenReader
            } else {
                AfterCopy::Speak(text)
            }
        },
        None => AfterCopy::OpenReader,
    }
}

/// The text that the panel asks to have read, unless the selection is meant.
pub fn given_text(text: Option<String>) -> (given: Option<String>)
    ensures
        optional(given) == match optional(text) {
            Some(value) => if is_blank(value) {
                None
            } else {
                Some(value)
            },
            None => None,
        },
{
    match text {
        Some(value) => {
            if blank(value.as_str()) {
                None
            } else {
                Some(value)
            }
        },
        None => None,
    }
}

/// The text that is read, or why none is.
pub fn read_text(text: String) -> (accepted: Result<String, String>)
    ensures
        match accepted {
            Ok(given) => given == text && !is_blank(text@),
            Err(reason) => is_blank(text@) && reason@ == "Nada selecionado para ler."@,
        },
{
    if blank(text.as_str()) {
        Err(copy_text("Nada selecionado para ler."))
    } else {
        Ok(text)
    }
}

/// The chunks that the extension is given for the text that it asked to have read,
/// once that is prepared: the same that are going to be spoken. A break is a break,
/// whoever asks: then there are none, and nothing is spoken.
pub fn ler(service_enabled: bool, prepared: &str) -> (segments: Vec<String>)
    ensures
        texts(segments@) == if service_enabled {
            reading_chunks(prepared@)
        } else {
            Seq::<Seq<char>>::empty()
        },
{
    if !service_enabled {
        let none: Vec<String> = Vec::new();
        proof {
            assert(texts(none@) =~= Seq::<Seq<char>>::empty());
        }
        return none;
    }
    split_text(prepared)
}

// ------------------------------------------------------------------ the switch

/// What switching the service on or off does, in this order.
#[derive(Debug, Clone, Copy, PartialEq, Eq, Structural)]
pub enum ServiceStep {
    RegisterShortcuts,
    ReleaseShortcuts,
    StopReading,
    ClearBridge,
    CancelDictation,
    RefreshTray,
}

/// What switching the service on or off does. Switched off, whatever is going on
/// ends: there would be no shortcut left to end it.
pub open spec fn service_steps(enabled: bool) -> Seq<ServiceStep> {
    if enabled {
        seq![ServiceStep::RegisterShortcuts, ServiceStep::RefreshTray]
    } else {
        seq![
            ServiceStep::ReleaseShortcuts,
            ServiceStep::StopReading,
            ServiceStep::ClearBridge,
            ServiceStep::CancelDictation,
            ServiceStep::RefreshTray,
        ]
    }
}

/// What switching the service on or off does.
pub fn aplicar_estado_do_servico(enabled: bool) -> (steps: Vec<ServiceStep>)
    ensures
        steps@ == service_steps(enabled),
{
    if enabled {
        vec![ServiceStep::RegisterShortcuts, ServiceStep::RefreshTray]
    } else {
        vec![
            ServiceStep::ReleaseShortcuts,
            ServiceStep::StopReading,
            ServiceStep::ClearBridge,
            ServiceStep::CancelDictation,
            ServiceStep::RefreshTray,
        ]
    }
}

/// Switches the service, where that is a change, and tells what follows.
pub fn set_service_enabled(settings: &mut Settings, enabled: bool) -> (steps: Vec<ServiceStep>)
    ensures
        final(settings)@ == (SettingsView { service_enabled: enabled, ..old(settings)@ }),
        final(settings).shortcuts == old(settings).shortcuts,
        steps@ == if old(settings)@.service_enabled == enabled {
            Seq::<ServiceStep>::empty()
        } else {
            service_steps(enabled)
        },
{
    if settings.service_enabled == enabled {
        return Vec::new();
    }
    settings.service_enabled = enabled;
    aplicar_estado_do_servico(enabled)
}

// ----------------------------------------------------------------- the windows

/// What closing a window does.
#[derive(Debug, Clone, Copy, PartialEq, Eq, Structural)]
pub enum Closing {
    /// It is hidden, to be there at once the next time.
    Hide,
    /// It is hidden, and the reading stops: to close the text is to be done with
    /// it.
    HideAndStopReading,
    /// It is closed as windows are.
    Close,
}

/// What closing the window of that name does.
pub fn close_requested(label: &str) -> (closing: Closing)
    ensures
        closing == if label@ == "settings"@ {
            Closing::Hide
        } else if label@ == "reader"@ {
            Closing::HideAndStopReading
        } else {
            Closing::Close
        },
{
    if same_text(label, "settings") {
        Closing::Hide
    } else if same_text(label, "reader") {
        Closing::HideAndStopReading
    } else {
        Closing::Close
    }
}

/// Does the app stay when its last window is gone? It does unless it was told to
/// quit: it lives in the tray.
pub fn stays_alive(exit_code: Option<i32>) -> (stays: bool)
    ensures
        stays == (exit_code is None),
{
    exit_code.is_none()
}


/// Switched off, the app lets go of the shortcuts first, then ends whatever is going
/// on, the reading and the dictation, and what the extension sees of it. Switched
/// on, it takes the shortcuts back, and begins nothing. Either way the icon is the
/// last to learn of it.
pub proof fn law_a_break_ends_everything(enabled: bool)
    ensures
        ({
            let steps = service_steps(enabled);
            &&& steps.len() > 0 && steps.last() == ServiceStep::RefreshTray
            &&& steps[0] == if enabled {
                ServiceStep::RegisterShortcuts
            } else {
                ServiceStep::ReleaseShortcuts
            }
            &&& steps.contains(ServiceStep::RegisterShortcuts) <==> enabled
            &&& steps.contains(ServiceStep::ReleaseShortcuts) <==> !enabled
            &&& steps.contains(ServiceStep::StopReading) <==> !enabled
            &&& steps.contains(ServiceStep::ClearBridge) <==> !enabled
            &&& steps.contains(ServiceStep::CancelDictation) <==> !enabled
        }),
{
    let steps = service_steps(enabled);
    if enabled {
        assert(steps[0] == ServiceStep::RegisterShortcuts);
    } else {
        assert(steps[0] == ServiceStep::ReleaseShortcuts);
        assert(steps[1] == ServiceStep::StopReading);
        assert(steps[2] == ServiceStep::ClearBridge);
        assert(steps[3] == ServiceStep::CancelDictation);
    }
}

} // verus!
