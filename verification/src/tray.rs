//! The icon in the tray: the one place where the app can always be seen, and the
//! one where a shortcut that could not be had is told of.

use vstd::prelude::*;

use crate::commands::{Command, CommandInfo};
use crate::shortcuts::{failure_in, failure_of};
use crate::text::{copy_text, optional, same_text};

verus! {

/// What came of registering the shortcuts.
#[derive(Debug)]
pub struct ShortcutReport {
    /// Why the dictation has no shortcut, where it has none.
    pub dictate: Option<String>,
    /// Why the reading has no shortcut, where it has none.
    pub read: Option<String>,
    /// The combinations, as they were chosen.
    pub dictate_label: String,
    pub read_label: String,
    pub commands: Vec<CommandInfo>,
}

/// The combination of a command, by the lines that tell of it.
pub open spec fn binding_in(commands: Seq<CommandInfo>, key: Seq<char>) -> Seq<char>
    decreases commands.len(),
{
    if commands.len() == 0 {
        Seq::empty()
    } else if commands[0].id@ == key {
        commands[0].binding@
    } else {
        binding_in(commands.drop_first(), key)
    }
}

fn binding_of(commands: &Vec<CommandInfo>, key: &str) -> (binding: String)
    ensures
        binding@ == binding_in(commands@, key@),
{
    let mut i: usize = 0;
    proof {
        assert(commands@.skip(0) =~= commands@);
    }
    while i < commands.len()
        invariant
            i <= commands.len(),
            binding_in(commands@, key@) == binding_in(commands@.skip(i as int), key@),
        decreases commands.len() - i,
    {
        proof {
            assert(commands@.skip(i as int).drop_first() =~= commands@.skip(i + 1));
        }
        if same_text(commands[i].id, key) {
            return copy_text(commands[i].binding.as_str());
        }
        i = i + 1;
    }
    String::new()
}

impl ShortcutReport {
    /// What came of registering the shortcuts, from the lines of the catalogue.
    pub fn of(commands: Vec<CommandInfo>) -> (report: ShortcutReport)
        ensures
            optional(report.dictate) == failure_in(commands@, Command::Dictate.key()),
            optional(report.read) == failure_in(commands@, Command::ReadSelection.key()),
            report.dictate_label@ == binding_in(commands@, Command::Dictate.key()),
            report.read_label@ == binding_in(commands@, Command::ReadSelection.key()),
            report.commands == commands,
    {
        let dictate = failure_of(&commands, Command::Dictate.id());
        let read = failure_of(&commands, Command::ReadSelection.id());
        let dictate_label = binding_of(&commands, Command::Dictate.id());
        let read_label = binding_of(&commands, Command::ReadSelection.id());
        ShortcutReport { dictate, read, dictate_label, read_label, commands }
    }

    /// Did a shortcut fail that is needed every day?
    pub fn has_failure(&self) -> (failed: bool)
        ensures
            failed == (self.dictate is Some || self.read is Some),
    {
        self.dictate.is_some() || self.read.is_some()
    }
}

/// A line of the menu.
#[derive(Debug)]
pub enum MenuEntry {
    Separator,
    Item { id: &'static str, label: String, enabled: bool },
    /// What stands up to the end of it goes into a menu of its own.
    SubmenuStart { id: &'static str, title: &'static str },
    SubmenuEnd,
}

/// A line of the menu.
pub ghost enum EntryView {
    Separator,
    Item { id: Seq<char>, label: Seq<char>, enabled: bool },
    SubmenuStart { name: Seq<char>, title: Seq<char> },
    SubmenuEnd,
}

impl View for MenuEntry {
    type V = EntryView;

    open spec fn view(&self) -> EntryView {
        match self {
            MenuEntry::Separator => EntryView::Separator,
            MenuEntry::Item { id, label, enabled } => EntryView::Item {
                id: id@,
                label: label@,
                enabled: *enabled,
            },
            MenuEntry::SubmenuStart { id, title } => EntryView::SubmenuStart {
                name: id@,
                title: title@,
            },
            MenuEntry::SubmenuEnd => EntryView::SubmenuEnd,
        }
    }
}

/// What a menu reads as.
pub open spec fn menu_view(menu: Seq<MenuEntry>) -> Seq<EntryView> {
    menu.map_values(|entry: MenuEntry| entry@)
}

/// What a menu says of the shortcut of the dictation.
pub open spec fn dictate_line(failure: Option<Seq<char>>, label: Seq<char>) -> Seq<char> {
    match failure {
        None => "Ditar   "@ + label,
        Some(reason) => "⚠ Ditar — indisponível ("@ + reason + ")"@,
    }
}

/// What a menu says of the shortcut of the reading.
pub open spec fn read_line(failure: Option<Seq<char>>, label: Seq<char>) -> Seq<char> {
    match failure {
        None => "Ler     "@ + label,
        Some(reason) => "⚠ Ler — indisponível ("@ + reason + ")"@,
    }
}

fn line_of(failure: &Option<String>, label: &str, plain: &str, warning: &str) -> (line: String)
    ensures
        line@ == match optional(*failure) {
            None => plain@ + label@,
            Some(reason) => warning@ + reason + ")"@,
        },
{
    match failure {
        None => {
            let mut line = copy_text(plain);
            line.append(label);
            line
        },
        Some(reason) => {
            let mut line = copy_text(warning);
            line.append(reason.as_str());
            line.append(")");
            line
        },
    }
}

/// The menu. The shortcuts stand in it to be seen and not to be chosen: a reminder,
/// and the place where one that failed does not stay silent.
pub open spec fn menu_of(dictate: Seq<char>, read: Seq<char>) -> Seq<EntryView> {
    seq![
        EntryView::SubmenuStart { name: "ajuda"@, title: "Atalhos"@ },
        EntryView::Item { id: "info_ditado"@, label: dictate, enabled: false },
        EntryView::Item { id: "info_leitura"@, label: read, enabled: false },
        EntryView::SubmenuEnd,
        EntryView::Separator,
        EntryView::Item { id: "preferencias"@, label: "Preferências…"@, enabled: true },
        EntryView::Item { id: "ler_clipboard"@, label: "Ler a área de transferência"@, enabled: true },
        EntryView::Item { id: "abrir_leitor"@, label: "Abrir a janela de leitura"@, enabled: true },
        EntryView::Separator,
        EntryView::Item { id: "abrir_vozes"@, label: "Comparar vozes no navegador"@, enabled: true },
        EntryView::Item {
            id: "abrir_config"@,
            label: "Abrir o arquivo de preferências"@,
            enabled: true,
        },
        EntryView::Separator,
        EntryView::Item { id: "sair"@, label: "Sair do Vox"@, enabled: true },
    ]
}

fn item(id: &'static str, label: &str) -> (entry: MenuEntry)
    ensures
        entry@ == (EntryView::Item { id: id@, label: label@, enabled: true }),
{
    MenuEntry::Item { id, label: copy_text(label), enabled: true }
}

/// The menu, and what the icon says when the pointer rests on it.
pub fn build(report: &ShortcutReport) -> (built: (Vec<MenuEntry>, &'static str))
    ensures
        menu_view(built.0@) == menu_of(
            dictate_line(optional(report.dictate), report.dictate_label@),
            read_line(optional(report.read), report.read_label@),
        ),
        built.1@ == if report.dictate is Some || report.read is Some {
            "Vox — um atalho não pôde ser registrado"@
        } else {
            "Vox — ditado e leitura por voz"@
        },
{
    let dictate = line_of(
        &report.dictate,
        report.dictate_label.as_str(),
        "Ditar   ",
        "⚠ Ditar — indisponível (",
    );
    let read = line_of(
        &report.read,
        report.read_label.as_str(),
        "Ler     ",
        "⚠ Ler — indisponível (",
    );
    let menu = vec![
        MenuEntry::SubmenuStart { id: "ajuda", title: "Atalhos" },
        MenuEntry::Item { id: "info_ditado", label: dictate, enabled: false },
        MenuEntry::Item { id: "info_leitura", label: read, enabled: false },
        MenuEntry::SubmenuEnd,
        MenuEntry::Separator,
        item("preferencias", "Preferências…"),
        item("ler_clipboard", "Ler a área de transferência"),
        item("abrir_leitor", "Abrir a janela de leitura"),
        MenuEntry::Separator,
        item("abrir_vozes", "Comparar vozes no navegador"),
        item("abrir_config", "Abrir o arquivo de preferências"),
        MenuEntry::Separator,
        item("sair", "Sair do Vox"),
    ];
    let hint = if report.has_failure() {
        "Vox — um atalho não pôde ser registrado"
    } else {
        "Vox — ditado e leitura por voz"
    };
    proof {
        assert(menu_view(menu@) =~= menu_of(dictate@, read@));
    }
    (menu, hint)
}

/// What a line of the menu does.
#[derive(Debug, Clone, Copy, PartialEq, Eq, Structural)]
pub enum MenuAction {
    Quit,
    ShowReader,
    OpenSettings,
    ReadClipboard,
    /// The page of the service on which voices are compared.
    OpenVoices,
    /// The file of the preferences, which is written first where there is none.
    OpenSettingsFile,
    Nothing,
}

/// What the line of that name does.
pub open spec fn menu_action(id: Seq<char>) -> MenuAction {
    if id == "sair"@ {
        MenuAction::Quit
    } else if id == "abrir_leitor"@ {
        MenuAction::ShowReader
    } else if id == "preferencias"@ {
        MenuAction::OpenSettings
    } else if id == "ler_clipboard"@ {
        MenuAction::ReadClipboard
    } else if id == "abrir_vozes"@ {
        MenuAction::OpenVoices
    } else if id == "abrir_config"@ {
        MenuAction::OpenSettingsFile
    } else {
        MenuAction::Nothing
    }
}

/// What the line of that name does.
pub fn responder_menu(id: &str) -> (action: MenuAction)
    ensures
        action == menu_action(id@),
        action == MenuAction::Quit <==> id@ == "sair"@,
        id@ == "abrir_leitor"@ ==> action == MenuAction::ShowReader,
        id@ == "preferencias"@ ==> action == MenuAction::OpenSettings,
        id@ == "ler_clipboard"@ ==> action == MenuAction::ReadClipboard,
        id@ == "abrir_vozes"@ ==> action == MenuAction::OpenVoices,
        id@ == "abrir_config"@ ==> action == MenuAction::OpenSettingsFile,
        action == MenuAction::ShowReader ==> id@ == "abrir_leitor"@,
        action == MenuAction::OpenSettings ==> id@ == "preferencias"@,
        action == MenuAction::ReadClipboard ==> id@ == "ler_clipboard"@,
        action == MenuAction::OpenVoices ==> id@ == "abrir_vozes"@,
        action == MenuAction::OpenSettingsFile ==> id@ == "abrir_config"@,
{
    proof {
        lemma_menu_names();
    }
    if same_text(id, "sair") {
        MenuAction::Quit
    } else if same_text(id, "abrir_leitor") {
        MenuAction::ShowReader
    } else if same_text(id, "preferencias") {
        MenuAction::OpenSettings
    } else if same_text(id, "ler_clipboard") {
        MenuAction::ReadClipboard
    } else if same_text(id, "abrir_vozes") {
        MenuAction::OpenVoices
    } else if same_text(id, "abrir_config") {
        MenuAction::OpenSettingsFile
    } else {
        MenuAction::Nothing
    }
}

/// The address of the page on which voices are compared.
pub fn voices_url(base_url: &str) -> (url: String)
    ensures
        url@ == base_url@ + "/vozes"@,
{
    let mut url = copy_text(base_url);
    url.append("/vozes");
    url
}

/// Every line of the menu that can be chosen does something.
pub proof fn law_menu_lines_act(dictate: Seq<char>, read: Seq<char>, i: int)
    requires
        0 <= i < menu_of(dictate, read).len(),
        menu_of(dictate, read)[i] matches EntryView::Item { enabled: true, .. },
    ensures
        menu_action(menu_of(dictate, read)[i]->id) != MenuAction::Nothing,
{
}


proof fn lemma_menu_names()
    ensures
        "sair"@.len() == 4 && "abrir_leitor"@.len() == 12 && "preferencias"@.len() == 12,
        "ler_clipboard"@.len() == 13 && "abrir_vozes"@.len() == 11 && "abrir_config"@.len() == 12,
        "info_ditado"@.len() == 11 && "info_leitura"@.len() == 12,
        "abrir_leitor"@ != "preferencias"@ && "abrir_leitor"@ != "abrir_config"@,
        "preferencias"@ != "abrir_config"@ && "abrir_vozes"@ != "info_ditado"@,
        "info_leitura"@ != "abrir_leitor"@ && "info_leitura"@ != "preferencias"@,
        "info_leitura"@ != "abrir_config"@,
{
    reveal_strlit("sair");
    reveal_strlit("abrir_leitor");
    reveal_strlit("preferencias");
    reveal_strlit("ler_clipboard");
    reveal_strlit("abrir_vozes");
    reveal_strlit("abrir_config");
    reveal_strlit("info_ditado");
    reveal_strlit("info_leitura");
    assert("abrir_leitor"@[6] == 'l' && "abrir_config"@[6] == 'c' && "abrir_leitor"@[0] == 'a');
    assert("preferencias"@[0] == 'p' && "abrir_config"@[0] == 'a' && "abrir_vozes"@[0] == 'a');
    assert("info_ditado"@[0] == 'i' && "info_leitura"@[0] == 'i');
}

/// The menu holds a line for each thing that it can do, and the two lines that tell of
/// the shortcuts, which cannot be chosen. Those stand in a menu of their own, the one
/// of the dictation first.
pub proof fn law_the_menu_holds(dictate: Seq<char>, read: Seq<char>, i: int)
    requires
        0 <= i < menu_of(dictate, read).len(),
    ensures
        ({
            let menu = menu_of(dictate, read);
            &&& menu.len() == 13
            &&& menu[i] is SubmenuStart <==> i == 0
            &&& menu[i] is SubmenuEnd <==> i == 3
            &&& menu[1] == (EntryView::Item { id: "info_ditado"@, label: dictate, enabled: false })
            &&& menu[2] == (EntryView::Item { id: "info_leitura"@, label: read, enabled: false })
            &&& menu[i] matches EntryView::Item { id, label, enabled } ==> {
                &&& enabled <==> i > 2
                &&& menu_action(id) != MenuAction::Nothing <==> enabled
                &&& menu_action(id) == MenuAction::Quit <==> i == 12
                &&& menu_action(id) == MenuAction::OpenSettings <==> i == 5
                &&& menu_action(id) == MenuAction::ReadClipboard <==> i == 6
                &&& menu_action(id) == MenuAction::ShowReader <==> i == 7
                &&& menu_action(id) == MenuAction::OpenVoices <==> i == 9
                &&& menu_action(id) == MenuAction::OpenSettingsFile <==> i == 10
            }
        }),
{
    lemma_menu_names();
}

/// A shortcut that could not be had is told of in the place where its combination
/// would stand, with the reason; one that was had is shown with its combination.
pub proof fn law_lines_of_the_shortcuts(reason: Seq<char>, label: Seq<char>)
    ensures
        dictate_line(None, label) == "Ditar   "@ + label,
        read_line(None, label) == "Ler     "@ + label,
        dictate_line(Some(reason), label) == "⚠ Ditar — indisponível ("@ + reason + ")"@,
        read_line(Some(reason), label) == "⚠ Ler — indisponível ("@ + reason + ")"@,
{
}

/// The combination of a command is what the first line with its name says; where no
/// line has its name, it is empty.
pub proof fn law_the_first_line_has_it(commands: Seq<CommandInfo>, key: Seq<char>, i: int)
    requires
        0 <= i <= commands.len(),
        i < commands.len() ==> commands[i].id@ == key,
        forall|j: int| 0 <= j < i ==> (#[trigger] commands[j]).id@ != key,
    ensures
        i < commands.len() ==> binding_in(commands, key) == commands[i].binding@,
        i == commands.len() ==> binding_in(commands, key).len() == 0,
    decreases commands.len(),
{
    if i > 0 {
        let rest = commands.drop_first();
        assert(commands[0].id@ != key);
        assert forall|j: int| 0 <= j < i - 1 implies (#[trigger] rest[j]).id@ != key by {
            assert(rest[j] == commands[j + 1]);
        }
        if i < commands.len() {
            assert(rest[i - 1] == commands[i]);
        }
        law_the_first_line_has_it(rest, key, i - 1);
    }
}

} // verus!
