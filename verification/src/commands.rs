//! The catalogue of commands.
//!
//! Each command is declared once, and its preference, its global shortcut and its
//! line in the menu follow from that.
//!
//! The default combinations come in two families: `Ctrl+Shift` and a letter for
//! the dictation, `Ctrl+Alt` and a letter for the reading and the window. On a
//! Brazilian keyboard `AltGr` is `Ctrl+Alt`, so the letters of the second family
//! are ones that write nothing with it.

use vstd::prelude::*;

use crate::text::starts_with;

verus! {

/// All that the app can do by shortcut.
#[derive(Debug, Clone, Copy, PartialEq, Eq, Structural)]
pub enum Command {
    Dictate,
    CancelDictation,
    ReadSelection,
    TogglePlayback,
    StopReading,
    ToggleCaptions,
    ShowWidget,
    OpenSettings,
}

impl Command {
    /// In the order in which the panel and the menu show them.
    pub const ALL: [Command; 8] = [
        Command::Dictate,
        Command::CancelDictation,
        Command::ReadSelection,
        Command::TogglePlayback,
        Command::StopReading,
        Command::ToggleCaptions,
        Command::ShowWidget,
        Command::OpenSettings,
    ];

    /// The key under which the choice of a combination is kept.
    pub open spec fn key(self) -> Seq<char> {
        match self {
            Command::Dictate => "dictate"@,
            Command::CancelDictation => "cancel_dictation"@,
            Command::ReadSelection => "read_selection"@,
            Command::TogglePlayback => "toggle_playback"@,
            Command::StopReading => "stop_reading"@,
            Command::ToggleCaptions => "toggle_captions"@,
            Command::ShowWidget => "show_widget"@,
            Command::OpenSettings => "open_settings"@,
        }
    }

    /// What the command is called.
    pub open spec fn called(self) -> Seq<char> {
        match self {
            Command::Dictate => "Ditar"@,
            Command::CancelDictation => "Cancelar o ditado"@,
            Command::ReadSelection => "Ler a seleção"@,
            Command::TogglePlayback => "Pausar e retomar"@,
            Command::StopReading => "Parar a leitura"@,
            Command::ToggleCaptions => "Legenda guiada"@,
            Command::ShowWidget => "Mostrar o widget"@,
            Command::OpenSettings => "Abrir as preferências"@,
        }
    }

    /// What the command does, in a sentence.
    pub open spec fn explained(self) -> Seq<char> {
        match self {
            Command::Dictate => "Uma vez grava; de novo transcreve e entrega."@,
            Command::CancelDictation => "Descarta a gravação em curso sem transcrever nada."@,
            Command::ReadSelection => "Lê o que estiver selecionado. Durante a leitura, pausa e retoma."@,
            Command::TogglePlayback => "Só pausa e retoma — nunca começa uma leitura nova."@,
            Command::StopReading => "Encerra a leitura e esconde o widget."@,
            Command::ToggleCaptions => "Abre e fecha o texto dentro da pílula."@,
            Command::ShowWidget => "Traz a pílula à tela sem começar nada."@,
            Command::OpenSettings => "Esta janela."@,
        }
    }

    /// The combination that the command has until another is chosen.
    pub open spec fn default_keys(self) -> Seq<char> {
        match self {
            Command::Dictate => "Ctrl+Shift+D"@,
            Command::CancelDictation => "Ctrl+Shift+X"@,
            Command::ReadSelection => "Ctrl+Alt+L"@,
            Command::TogglePlayback => "Ctrl+Alt+P"@,
            Command::StopReading => "Ctrl+Alt+K"@,
            Command::ToggleCaptions => "Ctrl+Alt+G"@,
            Command::ShowWidget => "Ctrl+Alt+V"@,
            Command::OpenSettings => "Ctrl+Alt+O"@,
        }
    }

    /// The key under which the choice of a combination is kept.
    pub fn id(self) -> (id: &'static str)
        ensures
            id@ == self.key(),
    {
        match self {
            Command::Dictate => "dictate",
            Command::CancelDictation => "cancel_dictation",
            Command::ReadSelection => "read_selection",
            Command::TogglePlayback => "toggle_playback",
            Command::StopReading => "stop_reading",
            Command::ToggleCaptions => "toggle_captions",
            Command::ShowWidget => "show_widget",
            Command::OpenSettings => "open_settings",
        }
    }

    /// What the command is called.
    pub fn label(self) -> (label: &'static str)
        ensures
            label@ == self.called(),
    {
        match self {
            Command::Dictate => "Ditar",
            Command::CancelDictation => "Cancelar o ditado",
            Command::ReadSelection => "Ler a seleção",
            Command::TogglePlayback => "Pausar e retomar",
            Command::StopReading => "Parar a leitura",
            Command::ToggleCaptions => "Legenda guiada",
            Command::ShowWidget => "Mostrar o widget",
            Command::OpenSettings => "Abrir as preferências",
        }
    }

    /// What the command does, in a sentence.
    pub fn hint(self) -> (hint: &'static str)
        ensures
            hint@ == self.explained(),
    {
        match self {
            Command::Dictate => "Uma vez grava; de novo transcreve e entrega.",
            Command::CancelDictation => "Descarta a gravação em curso sem transcrever nada.",
            Command::ReadSelection => "Lê o que estiver selecionado. Durante a leitura, pausa e retoma.",
            Command::TogglePlayback => "Só pausa e retoma — nunca começa uma leitura nova.",
            Command::StopReading => "Encerra a leitura e esconde o widget.",
            Command::ToggleCaptions => "Abre e fecha o texto dentro da pílula.",
            Command::ShowWidget => "Traz a pílula à tela sem começar nada.",
            Command::OpenSettings => "Esta janela.",
        }
    }

    /// The combination that the command has until another is chosen.
    pub fn default_binding(self) -> (binding: &'static str)
        ensures
            binding@ == self.default_keys(),
    {
        match self {
            Command::Dictate => "Ctrl+Shift+D",
            Command::CancelDictation => "Ctrl+Shift+X",
            Command::ReadSelection => "Ctrl+Alt+L",
            Command::TogglePlayback => "Ctrl+Alt+P",
            Command::StopReading => "Ctrl+Alt+K",
            Command::ToggleCaptions => "Ctrl+Alt+G",
            Command::ShowWidget => "Ctrl+Alt+V",
            Command::OpenSettings => "Ctrl+Alt+O",
        }
    }
}

/// A line of the catalogue, as the panel draws it.
#[derive(Debug)]
pub struct CommandInfo {
    pub id: &'static str,
    pub label: &'static str,
    pub hint: &'static str,
    pub default_binding: &'static str,
    /// The combination in use, which may not be the default.
    pub binding: String,
    /// Why the command does not respond, where it does not.
    pub failure: Option<String>,
}

/// The catalogue holds every command.
pub proof fn law_catalogue_is_complete(command: Command)
    ensures
        exists|i: int| 0 <= i < 8 && Command::ALL@[i] == command,
{
    let all = Command::ALL@;
    assert(all[0] == Command::Dictate);
    assert(all[1] == Command::CancelDictation);
    assert(all[2] == Command::ReadSelection);
    assert(all[3] == Command::TogglePlayback);
    assert(all[4] == Command::StopReading);
    assert(all[5] == Command::ToggleCaptions);
    assert(all[6] == Command::ShowWidget);
    assert(all[7] == Command::OpenSettings);
}

/// No two commands share a key, which would make them share a preference.
pub proof fn law_keys_are_unique(a: Command, b: Command)
    ensures
        a.key() == b.key() ==> a == b,
{
    reveal_strlit("dictate");
    reveal_strlit("cancel_dictation");
    reveal_strlit("read_selection");
    reveal_strlit("toggle_playback");
    reveal_strlit("stop_reading");
    reveal_strlit("toggle_captions");
    reveal_strlit("show_widget");
    reveal_strlit("open_settings");
    assert(a.key().len() == b.key().len() || a.key() != b.key());
    assert(a.key()[0] == b.key()[0] || a.key() != b.key());
    assert(a.key()[7] == b.key()[7] || a.key() != b.key());
}

/// No two commands have one default combination.
pub proof fn law_default_combinations_are_unique(a: Command, b: Command)
    ensures
        a.default_keys() == b.default_keys() ==> a == b,
{
    reveal_strlit("Ctrl+Shift+D");
    reveal_strlit("Ctrl+Shift+X");
    reveal_strlit("Ctrl+Alt+L");
    reveal_strlit("Ctrl+Alt+P");
    reveal_strlit("Ctrl+Alt+K");
    reveal_strlit("Ctrl+Alt+G");
    reveal_strlit("Ctrl+Alt+V");
    reveal_strlit("Ctrl+Alt+O");
    assert(a.default_keys().len() == b.default_keys().len() || a.default_keys()
        != b.default_keys());
    assert(a.default_keys().last() == b.default_keys().last() || a.default_keys()
        != b.default_keys());
}

/// The keys that write something with `AltGr` on a Brazilian keyboard.
pub open spec fn taken_by_altgr(key: Seq<char>) -> bool {
    key == "Q"@ || key == "W"@ || key == "E"@ || key == "R"@ || key == "C"@ || key == "5"@
}

/// No default combination with `Ctrl+Alt` takes a character from who types.
pub proof fn law_defaults_leave_altgr_alone(command: Command)
    requires
        starts_with(command.default_keys(), "Ctrl+Alt+"@),
    ensures
        !taken_by_altgr(command.default_keys().skip("Ctrl+Alt+"@.len() as int)),
{
    reveal_strlit("Ctrl+Alt+");
    reveal_strlit("Ctrl+Shift+D");
    reveal_strlit("Ctrl+Shift+X");
    reveal_strlit("Ctrl+Alt+L");
    reveal_strlit("Ctrl+Alt+P");
    reveal_strlit("Ctrl+Alt+K");
    reveal_strlit("Ctrl+Alt+G");
    reveal_strlit("Ctrl+Alt+V");
    reveal_strlit("Ctrl+Alt+O");
    reveal_strlit("Q");
    reveal_strlit("W");
    reveal_strlit("E");
    reveal_strlit("R");
    reveal_strlit("C");
    reveal_strlit("5");
    let keys = command.default_keys();
    let prefix = "Ctrl+Alt+"@;
    if command == Command::Dictate || command == Command::CancelDictation {
        assert(keys.take(9)[5] == 'S');
        assert(prefix[5] == 'A');
        assert(false);
    }
    let key = keys.skip(9);
    assert(key[0] == keys[9]);
    assert("Q"@[0] == 'Q' && "W"@[0] == 'W' && "E"@[0] == 'E' && "R"@[0] == 'R' && "C"@[0] == 'C'
        && "5"@[0] == '5');
}


/// What each command goes by: the key of its preference, its name, its sentence and
/// its default combination belong together.
pub proof fn law_what_each_command_goes_by(command: Command)
    ensures
        match command {
            Command::Dictate => {
                &&& command.key() == "dictate"@
                &&& command.called() == "Ditar"@
                &&& command.explained() == "Uma vez grava; de novo transcreve e entrega."@
                &&& command.default_keys() == "Ctrl+Shift+D"@
            },
            Command::CancelDictation => {
                &&& command.key() == "cancel_dictation"@
                &&& command.called() == "Cancelar o ditado"@
                &&& command.explained() == "Descarta a gravação em curso sem transcrever nada."@
                &&& command.default_keys() == "Ctrl+Shift+X"@
            },
            Command::ReadSelection => {
                &&& command.key() == "read_selection"@
                &&& command.called() == "Ler a seleção"@
                &&& command.explained() == "Lê o que estiver selecionado. Durante a leitura, pausa e retoma."@
                &&& command.default_keys() == "Ctrl+Alt+L"@
            },
            Command::TogglePlayback => {
                &&& command.key() == "toggle_playback"@
                &&& command.called() == "Pausar e retomar"@
                &&& command.explained() == "Só pausa e retoma — nunca começa uma leitura nova."@
                &&& command.default_keys() == "Ctrl+Alt+P"@
            },
            Command::StopReading => {
                &&& command.key() == "stop_reading"@
                &&& command.called() == "Parar a leitura"@
                &&& command.explained() == "Encerra a leitura e esconde o widget."@
                &&& command.default_keys() == "Ctrl+Alt+K"@
            },
            Command::ToggleCaptions => {
                &&& command.key() == "toggle_captions"@
                &&& command.called() == "Legenda guiada"@
                &&& command.explained() == "Abre e fecha o texto dentro da pílula."@
                &&& command.default_keys() == "Ctrl+Alt+G"@
            },
            Command::ShowWidget => {
                &&& command.key() == "show_widget"@
                &&& command.called() == "Mostrar o widget"@
                &&& command.explained() == "Traz a pílula à tela sem começar nada."@
                &&& command.default_keys() == "Ctrl+Alt+V"@
            },
            Command::OpenSettings => {
                &&& command.key() == "open_settings"@
                &&& command.called() == "Abrir as preferências"@
                &&& command.explained() == "Esta janela."@
                &&& command.default_keys() == "Ctrl+Alt+O"@
            },
        },
{
}

} // verus!
