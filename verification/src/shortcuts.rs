//! Global shortcuts: what a combination says, and who gets it.
//!
//! A global shortcut is a thing in dispute, and one that cannot be had fails
//! without a word. So every command is registered on its own, and what failed is
//! told beside the command that it failed for.

use vstd::prelude::*;

use crate::commands::{Command, CommandInfo};
use crate::config::Settings;
use crate::outside::lowercase;
use crate::text::{
    ascii_lower, ascii_lower_chars, blank, char_lists, contains, contains_text, copy_optional,
    copy_text, decimal, is_blank, optional, same_chars, same_text, slice_chars, split_at_char, split_on,
    to_chars, to_text, trim, trim_chars, trimmed,
};

verus! {

/// A key that makes sense in a global shortcut.
#[derive(Debug, Clone, Copy, PartialEq, Eq, Structural)]
pub enum Key {
    /// A letter from a to z.
    Letter(char),
    Space,
    /// A function key, from 1 to 12.
    Function(u8),
}

/// The keys that are held with another.
#[derive(Debug, Clone, Copy, PartialEq, Eq, Structural)]
pub struct Modifiers {
    pub control: bool,
    pub shift: bool,
    pub alt: bool,
    pub system: bool,
}

impl Modifiers {
    pub open spec fn some(self) -> bool {
        self.control || self.shift || self.alt || self.system
    }
}

/// A combination of keys.
#[derive(Debug, Clone, Copy, PartialEq, Eq, Structural)]
pub struct Shortcut {
    pub modifiers: Modifiers,
    pub key: Key,
}

// ---------------------------------------------------------- what a text says

/// The key of a name, in lower case.
pub open spec fn key_named(name: Seq<char>) -> Option<Key> {
    if name.len() == 1 && 'a' <= name[0] <= 'z' {
        Some(Key::Letter(name[0]))
    } else if name == "space"@ {
        Some(Key::Space)
    } else if name == "f1"@ {
        Some(Key::Function(1))
    } else if name == "f2"@ {
        Some(Key::Function(2))
    } else if name == "f3"@ {
        Some(Key::Function(3))
    } else if name == "f4"@ {
        Some(Key::Function(4))
    } else if name == "f5"@ {
        Some(Key::Function(5))
    } else if name == "f6"@ {
        Some(Key::Function(6))
    } else if name == "f7"@ {
        Some(Key::Function(7))
    } else if name == "f8"@ {
        Some(Key::Function(8))
    } else if name == "f9"@ {
        Some(Key::Function(9))
    } else if name == "f10"@ {
        Some(Key::Function(10))
    } else if name == "f11"@ {
        Some(Key::Function(11))
    } else if name == "f12"@ {
        Some(Key::Function(12))
    } else {
        None
    }
}

fn reads(name: &[char], text: &str) -> (same: bool)
    ensures
        same == (name@ == text@),
{
    let other = to_chars(text);
    same_chars(name, other.as_slice())
}

/// The key of a name, in lower case.
pub fn code_from_str(nome: &[char]) -> (key: Option<Key>)
    ensures
        key == key_named(nome@),
{
    if nome.len() == 1 && 'a' <= nome[0] && nome[0] <= 'z' {
        Some(Key::Letter(nome[0]))
    } else if reads(nome, "space") {
        Some(Key::Space)
    } else if reads(nome, "f1") {
        Some(Key::Function(1))
    } else if reads(nome, "f2") {
        Some(Key::Function(2))
    } else if reads(nome, "f3") {
        Some(Key::Function(3))
    } else if reads(nome, "f4") {
        Some(Key::Function(4))
    } else if reads(nome, "f5") {
        Some(Key::Function(5))
    } else if reads(nome, "f6") {
        Some(Key::Function(6))
    } else if reads(nome, "f7") {
        Some(Key::Function(7))
    } else if reads(nome, "f8") {
        Some(Key::Function(8))
    } else if reads(nome, "f9") {
        Some(Key::Function(9))
    } else if reads(nome, "f10") {
        Some(Key::Function(10))
    } else if reads(nome, "f11") {
        Some(Key::Function(11))
    } else if reads(nome, "f12") {
        Some(Key::Function(12))
    } else {
        None
    }
}

/// What the pieces of a combination have said so far.
#[derive(Debug, Clone, Copy, PartialEq, Eq, Structural)]
pub struct Said {
    pub modifiers: Modifiers,
    pub key: Option<Key>,
}

/// One more piece of a combination. Empty ones count for nothing; one that is no
/// modifier is the key, in place of the one before, and no key where there is none
/// of that name.
pub open spec fn with_piece(said: Said, piece: Seq<char>) -> Said {
    let name = ascii_lower(trim(piece));
    if name.len() == 0 {
        said
    } else if name == "ctrl"@ || name == "control"@ {
        Said { modifiers: Modifiers { control: true, ..said.modifiers }, ..said }
    } else if name == "shift"@ {
        Said { modifiers: Modifiers { shift: true, ..said.modifiers }, ..said }
    } else if name == "alt"@ {
        Said { modifiers: Modifiers { alt: true, ..said.modifiers }, ..said }
    } else if name == "super"@ || name == "win"@ || name == "meta"@ || name == "cmd"@ {
        Said { modifiers: Modifiers { system: true, ..said.modifiers }, ..said }
    } else {
        Said { key: key_named(name), ..said }
    }
}

/// What the pieces of a combination say together.
pub open spec fn said_by(pieces: Seq<Seq<char>>) -> Said
    decreases pieces.len(),
{
    if pieces.len() == 0 {
        Said {
            modifiers: Modifiers { control: false, shift: false, alt: false, system: false },
            key: None,
        }
    } else {
        with_piece(said_by(pieces.drop_last()), pieces.last())
    }
}

/// The combination that a text says: a key and at least one modifier. Without one
/// it would take the key from the whole system.
pub open spec fn combination(text: Seq<char>) -> Option<Shortcut> {
    let said = said_by(split_on(text, '+'));
    if said.modifiers.some() && said.key is Some {
        Some(Shortcut { modifiers: said.modifiers, key: said.key->0 })
    } else {
        None
    }
}

/// Reads a combination such as `Ctrl+Shift+D`.
pub fn parse_shortcut(texto: &str) -> (atalho: Option<Shortcut>)
    ensures
        atalho == combination(texto@),
{
    let chars = to_chars(texto);
    let partes = split_at_char(chars.as_slice(), '+');
    let ghost pieces = split_on(texto@, '+');
    let mut said = Said {
        modifiers: Modifiers { control: false, shift: false, alt: false, system: false },
        key: None,
    };
    let mut i: usize = 0;
    while i < partes.len()
        invariant
            i <= partes.len(),
            char_lists(partes@) == pieces,
            said == said_by(pieces.take(i as int)),
        decreases partes.len() - i,
    {
        proof {
            assert(pieces.take(i + 1).drop_last() =~= pieces.take(i as int));
            assert(pieces[i as int] == partes@[i as int]@);
        }
        let parte = trim_chars(partes[i].as_slice());
        let nome = ascii_lower_chars(parte.as_slice());
        if nome.len() > 0 {
            let name = nome.as_slice();
            if reads(name, "ctrl") || reads(name, "control") {
                said.modifiers.control = true;
            } else if reads(name, "shift") {
                said.modifiers.shift = true;
            } else if reads(name, "alt") {
                said.modifiers.alt = true;
            } else if reads(name, "super") || reads(name, "win") || reads(name, "meta") || reads(
                name,
                "cmd",
            ) {
                said.modifiers.system = true;
            } else {
                said.key = code_from_str(name);
            }
        }
        i = i + 1;
    }
    proof {
        assert(pieces.take(pieces.len() as int) =~= pieces);
    }
    let m = said.modifiers;
    if !(m.control || m.shift || m.alt || m.system) {
        return None;
    }
    match said.key {
        Some(key) => Some(Shortcut { modifiers: m, key }),
        None => None,
    }
}

/// Every combination that is registered holds a modifier, so that no key is taken
/// from the whole system.
pub proof fn law_combinations_hold_a_modifier(text: Seq<char>)
    ensures
        combination(text) is Some ==> combination(text)->0.modifiers.some(),
{
}

// --------------------------------------------------------------- who gets it

/// What is to be done about the combination of a command.
#[derive(Debug, Clone, Copy, PartialEq, Eq, Structural)]
pub enum Verdict {
    /// The command is to have none. That is a choice and no mistake.
    Unset,
    /// Another command has the same.
    Taken(Command),
    /// The text says no combination.
    Invalid,
    /// It can be asked for.
    Free(Shortcut),
}

/// The command that has a combination already, by its text.
pub open spec fn owner_of(registered: Seq<(Seq<char>, Command)>, normalized: Seq<char>) -> Option<
    Command,
>
    decreases registered.len(),
{
    if registered.len() == 0 {
        None
    } else if registered[0].0 == normalized {
        Some(registered[0].1)
    } else {
        owner_of(registered.drop_first(), normalized)
    }
}

/// What is to be done about a combination, given its text in lower case.
pub open spec fn verdict_of(
    registered: Seq<(Seq<char>, Command)>,
    binding: Seq<char>,
    normalized: Seq<char>,
) -> Verdict {
    if is_blank(binding) {
        Verdict::Unset
    } else if owner_of(registered, normalized) is Some {
        Verdict::Taken(owner_of(registered, normalized)->0)
    } else {
        match combination(binding) {
            Some(shortcut) => Verdict::Free(shortcut),
            None => Verdict::Invalid,
        }
    }
}

/// Why a command does not respond, where the verdict says that it will not.
pub open spec fn refusal(verdict: Verdict, binding: Seq<char>) -> Option<Seq<char>> {
    match verdict {
        Verdict::Taken(owner) => Some("a mesma combinação de \""@ + owner.called() + "\""@),
        Verdict::Invalid => Some("combinação inválida: "@ + binding),
        _ => None,
    }
}

/// What a list of registered combinations reads as.
pub open spec fn registered_view(list: Seq<(String, Command)>) -> Seq<(Seq<char>, Command)> {
    list.map_values(|entry: (String, Command)| (entry.0@, entry.1))
}

/// What a line of the catalogue says.
pub ghost struct InfoView {
    pub command: Command,
    pub binding: Seq<char>,
    pub failure: Option<Seq<char>>,
}

/// Does a line of the catalogue say this?
pub open spec fn info_says(info: CommandInfo, view: InfoView) -> bool {
    &&& info.id@ == view.command.key()
    &&& info.label@ == view.command.called()
    &&& info.hint@ == view.command.explained()
    &&& info.default_binding@ == view.command.default_keys()
    &&& info.binding@ == view.binding
    &&& optional(info.failure) == view.failure
}

/// A line of the catalogue.
fn info_of(command: Command, binding: String, failure: Option<String>) -> (info: CommandInfo)
    ensures
        info_says(
            info,
            InfoView { command, binding: binding@, failure: optional(failure) },
        ),
{
    CommandInfo {
        id: command.id(),
        label: command.label(),
        hint: command.hint(),
        default_binding: command.default_binding(),
        binding,
        failure,
    }
}

/// A combination that is to be asked for.
#[derive(Debug)]
pub struct Wanted {
    pub command: Command,
    pub binding: String,
    /// The text of the combination, in lower case.
    pub normalized: String,
    pub shortcut: Shortcut,
}

/// The registration of the commands, one after the other.
#[derive(Debug)]
pub struct Registration {
    /// The text of each combination that was had, in lower case, and its command.
    pub registered: Vec<(String, Command)>,
    pub commands: Vec<CommandInfo>,
}

impl Registration {
    /// No combination was had twice.
    pub open spec fn wf(self) -> bool {
        let list = registered_view(self.registered@);
        forall|i: int, j: int| 0 <= i < j < list.len() ==> (#[trigger] list[i]).0 != (
        #[trigger] list[j]).0
    }

    /// What is to be done about a combination.
    pub open spec fn judges(self, binding: Seq<char>) -> Verdict {
        verdict_of(registered_view(self.registered@), binding, lowercase(trim(binding)))
    }

    /// Nothing registered.
    pub fn new() -> (registration: Registration)
        ensures
            registration.wf(),
            registration.registered@.len() == 0,
            registration.commands@.len() == 0,
    {
        Registration { registered: Vec::new(), commands: Vec::new() }
    }

    /// What is to be done about a combination, given its text in lower case.
    pub fn judge_given(&self, binding: &str, normalized: &str) -> (verdict: Verdict)
        ensures
            verdict == verdict_of(
                registered_view(self.registered@),
                binding@,
                normalized@,
            ),
    {
        if blank(binding) {
            return Verdict::Unset;
        }
        let ghost list = registered_view(self.registered@);
        let mut i: usize = 0;
        proof {
            assert(list.skip(0) =~= list);
        }
        while i < self.registered.len()
            invariant
                i <= self.registered.len(),
                !is_blank(binding@),
                list == registered_view(self.registered@),
                owner_of(list, normalized@) == owner_of(list.skip(i as int), normalized@),
            decreases self.registered.len() - i,
        {
            proof {
                assert(list.skip(i as int).drop_first() =~= list.skip(i + 1));
            }
            if same_text(self.registered[i].0.as_str(), normalized) {
                return Verdict::Taken(self.registered[i].1);
            }
            i = i + 1;
        }
        match parse_shortcut(binding) {
            Some(shortcut) => Verdict::Free(shortcut),
            None => Verdict::Invalid,
        }
    }

    /// Takes the next command with its combination. Where the combination is free
    /// it is to be asked for, and `answer` is told what came of it; in every other
    /// case the command is done with.
    pub fn register(&mut self, command: Command, binding: &str) -> (wanted: Option<Wanted>)
        requires
            old(self).wf(),
        ensures
            final(self).wf(),
            final(self).registered == old(self).registered,
            match old(self).judges(binding@) {
                Verdict::Free(shortcut) => {
                    &&& final(self).commands == old(self).commands
                    &&& wanted is Some
                    &&& wanted->0.command == command
                    &&& wanted->0.binding@ == binding@
                    &&& wanted->0.normalized@ == lowercase(trim(binding@))
                    &&& wanted->0.shortcut == shortcut
                    &&& final(self).is_free(wanted->0)
                },
                verdict => {
                    &&& wanted is None
                    &&& final(self).commands@.len() == old(self).commands@.len() + 1
                    &&& final(self).commands@.drop_last() == old(self).commands@
                    &&& info_says(
                        final(self).commands@.last(),
                        InfoView {
                            command,
                            binding: binding@,
                            failure: refusal(verdict, binding@),
                        },
                    )
                },
            },
    {
        let clean = trimmed(binding);
        let normalized = clean.as_str().to_lowercase();
        let failure = match self.judge_given(binding, normalized.as_str()) {
            Verdict::Free(shortcut) => {
                return Some(Wanted { command, binding: copy_text(binding), normalized, shortcut });
            },
            Verdict::Unset => None,
            Verdict::Taken(owner) => {
                let mut told = copy_text("a mesma combinação de \"");
                told.append(owner.label());
                told.append("\"");
                Some(told)
            },
            Verdict::Invalid => {
                let mut told = copy_text("combinação inválida: ");
                told.append(binding);
                Some(told)
            },
        };
        let ghost before = self.commands@;
        self.commands.push(info_of(command, copy_text(binding), failure));
        proof {
            assert(self.commands@.drop_last() =~= before);
        }
        None
    }

    /// Goes on through the catalogue, each command with the combination that it has
    /// in the preferences, up to the next one that can be asked for; `answer` is
    /// told what came of that. Each command counts on its own: one that cannot be
    /// had takes nothing from the others. After the last there is none to ask for,
    /// and every command has its line.
    pub fn register_shortcuts(&mut self, settings: &Settings) -> (wanted: Option<Wanted>)
        requires
            old(self).wf(),
            old(self).commands@.len() <= 8,
            settings.wf(),
        ensures
            final(self).wf(),
            final(self).registered == old(self).registered,
            old(self).commands@.len() <= final(self).commands@.len() <= 8,
            final(self).commands@.take(old(self).commands@.len() as int) == old(self).commands@,
            forall|i: int|
                old(self).commands@.len() <= i < final(self).commands@.len()
                    ==> #[trigger] final(self).passed_over(
                    settings.binding(Command::ALL@[i]),
                    Command::ALL@[i],
                    i,
                ),
            match wanted {
                Some(asked) => {
                    let at = final(self).commands@.len() as int;
                    &&& at < 8
                    &&& asked.command == Command::ALL@[at]
                    &&& asked.binding@ == settings.binding(Command::ALL@[at])
                    &&& asked.normalized@ == lowercase(trim(asked.binding@))
                    &&& final(self).judges(asked.binding@) == Verdict::Free(asked.shortcut)
                    &&& final(self).is_free(asked)
                },
                None => final(self).commands@.len() == 8,
            },
    {
        let ghost before = self.commands@;
        let ghost list = self.registered;
        proof {
            assert(before.take(before.len() as int) =~= before);
        }
        while self.commands.len() < 8
            invariant
                self.wf(),
                settings.wf(),
                self.registered == list,
                before == old(self).commands@,
                list == old(self).registered,
                before.len() <= self.commands@.len() <= 8,
                self.commands@.take(before.len() as int) == before,
                forall|i: int|
                    before.len() <= i < self.commands@.len() ==> self.passed_over(
                        settings.binding(Command::ALL@[i]),
                        Command::ALL@[i],
                        i,
                    ),
            decreases 8 - self.commands.len(),
        {
            let ghost now = *self;
            let command = Command::ALL[self.commands.len()];
            let binding = settings.binding_of(command);
            match self.register(command, binding.as_str()) {
                Some(asked) => {
                    return Some(asked);
                },
                None => {},
            }
            proof {
                let at = now.commands@.len() as int;
                assert(self.commands@ =~= now.commands@.push(self.commands@.last()));
                assert(self.commands@.take(before.len() as int) =~= before);
                assert forall|i: int| before.len() <= i < self.commands@.len() implies self.passed_over(
                    settings.binding(Command::ALL@[i]),
                    Command::ALL@[i],
                    i,
                ) by {
                    if i < at {
                        assert(now.passed_over(
                            settings.binding(Command::ALL@[i]),
                            Command::ALL@[i],
                            i,
                        ));
                        assert(self.commands@[i] == now.commands@[i]);
                    }
                }
            }
        }
        None
    }

    /// Was the command at `at` passed over, and does its line say why?
    pub open spec fn passed_over(self, binding: Seq<char>, command: Command, at: int) -> bool {
        &&& !(self.judges(binding) is Free)
        &&& info_says(
            self.commands@[at],
            InfoView { command, binding, failure: refusal(self.judges(binding), binding) },
        )
    }

    /// Does no command have this combination yet?
    pub open spec fn is_free(self, wanted: Wanted) -> bool {
        owner_of(registered_view(self.registered@), wanted.normalized@) is None
    }

    /// Takes what came of asking for a combination.
    pub fn answer(&mut self, wanted: Wanted, outcome: Result<(), String>)
        requires
            old(self).wf(),
            old(self).is_free(wanted),
        ensures
            final(self).wf(),
            final(self).commands@.len() == old(self).commands@.len() + 1,
            final(self).commands@.drop_last() == old(self).commands@,
            info_says(
                final(self).commands@.last(),
                InfoView {
                    command: wanted.command,
                    binding: wanted.binding@,
                    failure: match outcome {
                        Ok(()) => None,
                        Err(reason) => Some(short_reason(reason@, lowercase(reason@))),
                    },
                },
            ),
            registered_view(final(self).registered@) == match outcome {
                Ok(()) => registered_view(old(self).registered@).push(
                    (wanted.normalized@, wanted.command),
                ),
                Err(_) => registered_view(old(self).registered@),
            },
    {
        let ghost before = self.commands@;
        let Wanted { command, binding, normalized, shortcut: _ } = wanted;
        let failure = match outcome {
            Ok(()) => {
                let ghost list = registered_view(self.registered@);
                let ghost entry = (normalized@, command);
                self.registered.push((normalized, command));
                proof {
                    assert(registered_view(self.registered@) =~= list.push(entry));
                    lemma_no_owner(list, entry.0);
                }
                None
            },
            Err(reason) => Some(motivo_curto(reason.as_str())),
        };
        self.commands.push(info_of(command, binding, failure));
        proof {
            assert(self.commands@.drop_last() =~= before);
        }
    }
}

proof fn lemma_no_owner(list: Seq<(Seq<char>, Command)>, normalized: Seq<char>)
    requires
        owner_of(list, normalized) is None,
    ensures
        forall|i: int| 0 <= i < list.len() ==> (#[trigger] list[i]).0 != normalized,
    decreases list.len(),
{
    if list.len() > 0 {
        let rest = list.drop_first();
        lemma_no_owner(rest, normalized);
        assert forall|i: int| 0 <= i < list.len() implies (#[trigger] list[i]).0 != normalized by {
            if i > 0 {
                assert(rest[i - 1] == list[i]);
            }
        }
    }
}

/// No combination goes to two commands: one that was had is refused to every other
/// command, and the refusal says who has it.
pub proof fn law_a_combination_is_had_once(
    registered: Seq<(Seq<char>, Command)>,
    at: int,
    binding: Seq<char>,
)
    requires
        0 <= at < registered.len(),
        registered[at].0 == lowercase(trim(binding)),
        !is_blank(binding),
    ensures
        verdict_of(registered, binding, lowercase(trim(binding))) is Taken,
    decreases registered.len(),
{
    if registered[0].0 != lowercase(trim(binding)) {
        let rest = registered.drop_first();
        assert(rest[at - 1] == registered[at]);
        law_a_combination_is_had_once(rest, at - 1, binding);
    }
}

// ------------------------------------------------------------------- reasons

/// A reason, short enough for a menu. Almost always another app has the
/// combination, and to say so helps more than the number of the error.
pub open spec fn short_reason(text: Seq<char>, lower: Seq<char>) -> Seq<char> {
    if contains(lower, "registered"@) || contains(text, "1409"@) {
        "já em uso por outro app"@
    } else if text.len() <= 60 {
        text
    } else {
        text.take(60)
    }
}

/// A reason, short enough for a menu, given its text in lower case.
pub fn motivo_curto_dado(texto: &str, minusculo: &str) -> (motivo: String)
    ensures
        motivo@ == short_reason(texto@, minusculo@),
        motivo@ == if contains(minusculo@, "registered"@) || contains(texto@, "1409"@) {
            "já em uso por outro app"@
        } else if texto@.len() <= 60 {
            texto@
        } else {
            texto@.subrange(0, 60)
        },
{
    if contains_text(minusculo, "registered") || contains_text(texto, "1409") {
        return copy_text("já em uso por outro app");
    }
    let chars = to_chars(texto);
    if chars.len() <= 60 {
        return copy_text(texto);
    }
    let curto = slice_chars(chars.as_slice(), 0, 60);
    proof {
        assert(curto@ =~= texto@.take(60));
    }
    to_text(curto.as_slice())
}

/// A reason, short enough for a menu.
pub fn motivo_curto(texto: &str) -> (motivo: String)
    ensures
        motivo@ == short_reason(texto@, lowercase(texto@)),
{
    let minusculo = texto.to_lowercase();
    motivo_curto_dado(texto, minusculo.as_str())
}

// ----------------------------------------------------------------- catalogue

/// Why a command failed to register, by the lines that tell of it.
pub open spec fn failure_in(commands: Seq<CommandInfo>, key: Seq<char>) -> Option<Seq<char>>
    decreases commands.len(),
{
    if commands.len() == 0 {
        None
    } else if commands[0].id@ == key {
        optional(commands[0].failure)
    } else {
        failure_in(commands.drop_first(), key)
    }
}

/// Why a command failed to register.
pub fn failure_of(commands: &Vec<CommandInfo>, key: &str) -> (failure: Option<String>)
    ensures
        optional(failure) == failure_in(commands@, key@),
{
    let mut i: usize = 0;
    proof {
        assert(commands@.skip(0) =~= commands@);
    }
    while i < commands.len()
        invariant
            i <= commands.len(),
            failure_in(commands@, key@) == failure_in(commands@.skip(i as int), key@),
        decreases commands.len() - i,
    {
        proof {
            assert(commands@.skip(i as int).drop_first() =~= commands@.skip(i + 1));
        }
        if same_text(commands[i].id, key) {
            return copy_optional(&commands[i].failure);
        }
        i = i + 1;
    }
    None
}

/// The catalogue as the panel shows it: each command with the combination it has
/// now, and why it does not respond where it does not.
pub fn catalogo_atual(settings: &Settings, registered: &Vec<CommandInfo>) -> (catalogue: Vec<
    CommandInfo,
>)
    requires
        settings.wf(),
    ensures
        catalogue@.len() == 8,
        forall|i: int|
            0 <= i < 8 ==> info_says(
                #[trigger] catalogue@[i],
                InfoView {
                    command: Command::ALL@[i],
                    binding: settings.binding(Command::ALL@[i]),
                    failure: failure_in(registered@, Command::ALL@[i].key()),
                },
            ),
{
    let mut catalogue: Vec<CommandInfo> = Vec::new();
    let mut i: usize = 0;
    while i < 8
        invariant
            i <= 8,
            settings.wf(),
            catalogue@.len() == i,
            forall|k: int|
                0 <= k < i ==> info_says(
                    #[trigger] catalogue@[k],
                    InfoView {
                        command: Command::ALL@[k],
                        binding: settings.binding(Command::ALL@[k]),
                        failure: failure_in(registered@, Command::ALL@[k].key()),
                    },
                ),
        decreases 8 - i,
    {
        let command = Command::ALL[i];
        let failure = failure_of(registered, command.id());
        catalogue.push(info_of(command, settings.binding_of(command), failure));
        i = i + 1;
    }
    catalogue
}


// ---------------------------------------------- what a combination is made of

/// The name that a piece of a combination says.
pub open spec fn piece_name(piece: Seq<char>) -> Seq<char> {
    ascii_lower(trim(piece))
}

/// Does a piece say a modifier, whichever?
pub open spec fn is_modifier(piece: Seq<char>) -> bool {
    let name = piece_name(piece);
    ||| name == "ctrl"@ || name == "control"@
    ||| name == "shift"@
    ||| name == "alt"@
    ||| name == "super"@ || name == "win"@ || name == "meta"@ || name == "cmd"@
}

proof fn lemma_modifier_names()
    ensures
        "ctrl"@.len() == 4 && "control"@.len() == 7 && "shift"@.len() == 5 && "alt"@.len() == 3,
        "super"@.len() == 5 && "win"@.len() == 3 && "meta"@.len() == 4 && "cmd"@.len() == 3,
        "ctrl"@ != "meta"@ && "shift"@ != "super"@ && "alt"@ != "win"@ && "alt"@ != "cmd"@,
        "win"@ != "cmd"@,
{
    reveal_strlit("ctrl");
    reveal_strlit("control");
    reveal_strlit("shift");
    reveal_strlit("alt");
    reveal_strlit("super");
    reveal_strlit("win");
    reveal_strlit("meta");
    reveal_strlit("cmd");
    assert("ctrl"@[0] == 'c' && "meta"@[0] == 'm' && "shift"@[1] == 'h' && "super"@[1] == 'u');
    assert("alt"@[0] == 'a' && "win"@[0] == 'w' && "cmd"@[0] == 'c');
}

/// A modifier is held exactly if one of the pieces names it, wherever that piece
/// stands; each goes by its own names.
pub proof fn law_modifiers_are_those_named(pieces: Seq<Seq<char>>)
    ensures
        ({
            let held = said_by(pieces).modifiers;
            &&& held.control <==> exists|i: int|
                0 <= i < pieces.len() && (piece_name(#[trigger] pieces[i]) == "ctrl"@ || piece_name(
                    pieces[i],
                ) == "control"@)
            &&& held.shift <==> exists|i: int|
                0 <= i < pieces.len() && piece_name(#[trigger] pieces[i]) == "shift"@
            &&& held.alt <==> exists|i: int|
                0 <= i < pieces.len() && piece_name(#[trigger] pieces[i]) == "alt"@
            &&& held.system <==> exists|i: int|
                0 <= i < pieces.len() && (piece_name(#[trigger] pieces[i]) == "super"@ || piece_name(
                    pieces[i],
                ) == "win"@ || piece_name(pieces[i]) == "meta"@ || piece_name(pieces[i]) == "cmd"@)
        }),
    decreases pieces.len(),
{
    lemma_modifier_names();
    if pieces.len() > 0 {
        let front = pieces.drop_last();
        law_modifiers_are_those_named(front);
        assert(pieces[pieces.len() - 1] == pieces.last());
        assert forall|i: int| 0 <= i < front.len() implies #[trigger] front[i] == pieces[i] by {
        }
        let before = said_by(front).modifiers;
        if before.control {
            let i = choose|i: int|
                0 <= i < front.len() && (piece_name(#[trigger] front[i]) == "ctrl"@ || piece_name(
                    front[i],
                ) == "control"@);
            assert(pieces[i] == front[i]);
        }
        if before.shift {
            let i = choose|i: int|
                0 <= i < front.len() && piece_name(#[trigger] front[i]) == "shift"@;
            assert(pieces[i] == front[i]);
        }
        if before.alt {
            let i = choose|i: int|
                0 <= i < front.len() && piece_name(#[trigger] front[i]) == "alt"@;
            assert(pieces[i] == front[i]);
        }
        if before.system {
            let i = choose|i: int|
                0 <= i < front.len() && (piece_name(#[trigger] front[i]) == "super"@ || piece_name(
                    front[i],
                ) == "win"@ || piece_name(front[i]) == "meta"@ || piece_name(front[i]) == "cmd"@);
            assert(pieces[i] == front[i]);
        }
        assert forall|i: int| 0 <= i < pieces.len() - 1 implies #[trigger] pieces[i]
            == front[i] by {
        }
    }
}

/// The key is the one that the last piece names that is neither empty nor a
/// modifier; where there is no such piece, there is no key.
pub proof fn law_the_last_key_counts(pieces: Seq<Seq<char>>, i: int)
    requires
        -1 <= i < pieces.len(),
        i >= 0 ==> piece_name(pieces[i]).len() > 0 && !is_modifier(pieces[i]),
        forall|j: int|
            i < j < pieces.len() ==> is_modifier(#[trigger] pieces[j]) || piece_name(
                pieces[j],
            ).len() == 0,
    ensures
        i >= 0 ==> said_by(pieces).key == key_named(piece_name(pieces[i])),
        i < 0 ==> said_by(pieces).key is None,
    decreases pieces.len(),
{
    lemma_modifier_names();
    if pieces.len() > 0 && i < pieces.len() - 1 {
        let front = pieces.drop_last();
        assert(pieces[pieces.len() - 1] == pieces.last());
        assert forall|j: int| i < j < front.len() implies is_modifier(#[trigger] front[j])
            || piece_name(front[j]).len() == 0 by {
            assert(front[j] == pieces[j]);
        }
        if i >= 0 {
            assert(front[i] == pieces[i]);
        }
        law_the_last_key_counts(front, i);
    }
}

/// A text says a combination exactly if it names a key and a modifier, and then it
/// says what it names.
pub proof fn law_a_combination_is_what_is_named(text: Seq<char>)
    ensures
        ({
            let said = said_by(split_on(text, '+'));
            let held = said.modifiers;
            &&& combination(text) is Some <==> said.key is Some && (held.control || held.shift
                || held.alt || held.system)
            &&& combination(text) matches Some(shortcut) ==> Some(shortcut.key) == said.key
                && shortcut.modifiers == held
        }),
{
}

proof fn lemma_function_names(n: nat)
    requires
        1 <= n <= 12,
    ensures
        seq!['f'] + decimal(n) == if n == 1 {
            "f1"@
        } else if n == 2 {
            "f2"@
        } else if n == 3 {
            "f3"@
        } else if n == 4 {
            "f4"@
        } else if n == 5 {
            "f5"@
        } else if n == 6 {
            "f6"@
        } else if n == 7 {
            "f7"@
        } else if n == 8 {
            "f8"@
        } else if n == 9 {
            "f9"@
        } else if n == 10 {
            "f10"@
        } else if n == 11 {
            "f11"@
        } else {
            "f12"@
        },
{
    reveal_with_fuel(decimal, 3);
    reveal_strlit("f1");
    reveal_strlit("f2");
    reveal_strlit("f3");
    reveal_strlit("f4");
    reveal_strlit("f5");
    reveal_strlit("f6");
    reveal_strlit("f7");
    reveal_strlit("f8");
    reveal_strlit("f9");
    reveal_strlit("f10");
    reveal_strlit("f11");
    reveal_strlit("f12");
    let name = seq!['f'] + decimal(n);
    if n == 1 {
        assert(name =~= "f1"@);
    } else if n == 2 {
        assert(name =~= "f2"@);
    } else if n == 3 {
        assert(name =~= "f3"@);
    } else if n == 4 {
        assert(name =~= "f4"@);
    } else if n == 5 {
        assert(name =~= "f5"@);
    } else if n == 6 {
        assert(name =~= "f6"@);
    } else if n == 7 {
        assert(name =~= "f7"@);
    } else if n == 8 {
        assert(name =~= "f8"@);
    } else if n == 9 {
        assert(name =~= "f9"@);
    } else if n == 10 {
        assert(name =~= "f10"@);
    } else if n == 11 {
        assert(name =~= "f11"@);
    } else {
        assert(name =~= "f12"@);
    }
}

/// A letter is named by itself, and the space by its word. A function key is named by
/// an `f` and its number, from 1 to 12. Nothing else names a key.
pub proof fn law_keys_go_by_their_names(name: Seq<char>)
    ensures
        key_named(name) matches Some(Key::Letter(c)) ==> 'a' <= c <= 'z' && name == seq![c],
        name.len() == 1 && 'a' <= name[0] <= 'z' ==> key_named(name) == Some(Key::Letter(name[0])),
        key_named(name) == Some(Key::Space) <==> name == "space"@,
        key_named(name) matches Some(Key::Function(n)) ==> 1 <= n <= 12 && name == seq!['f']
            + decimal(n as nat),
        forall|n: nat|
            1 <= n <= 12 && name == seq!['f'] + #[trigger] decimal(n) ==> key_named(name) == Some(
                Key::Function(n as u8),
            ),
{
    reveal_strlit("space");
    assert("space"@.len() == 5);
    if name.len() == 1 {
        assert(name =~= seq![name[0]]);
    }
    if let Some(Key::Function(n)) = key_named(name) {
        lemma_function_names(n as nat);
    }
    assert forall|n: nat| 1 <= n <= 12 && name == seq!['f'] + #[trigger] decimal(n) implies key_named(
        name,
    ) == Some(Key::Function(n as u8)) by {
        lemma_function_names(n);
        lemma_numbers_differ(n);
    }
}

proof fn lemma_numbers_differ(n: nat)
    requires
        1 <= n <= 12,
    ensures
        forall|m: nat|
            1 <= m <= 12 && seq!['f'] + #[trigger] decimal(m) == seq!['f'] + decimal(n) ==> m == n,
        2 <= (seq!['f'] + decimal(n)).len() <= 3,
        key_named(seq!['f'] + decimal(n)) == Some(Key::Function(n as u8)),
{
    reveal_with_fuel(decimal, 3);
    reveal_strlit("space");
    let name = seq!['f'] + decimal(n);
    assert forall|m: nat|
        1 <= m <= 12 && seq!['f'] + #[trigger] decimal(m) == seq!['f'] + decimal(n) implies m
        == n by {
        let other = seq!['f'] + decimal(m);
        assert(other.len() == name.len());
        assert(other.last() == name.last());
    }
    lemma_function_names(1);
    lemma_function_names(2);
    lemma_function_names(3);
    lemma_function_names(4);
    lemma_function_names(5);
    lemma_function_names(6);
    lemma_function_names(7);
    lemma_function_names(8);
    lemma_function_names(9);
    lemma_function_names(10);
    lemma_function_names(11);
    lemma_function_names(12);
}

/// Who has a combination is the first command that was given it; where no command
/// was, it is free if it is one, and a text that says none is told to be invalid. An
/// empty text asks for nothing.
pub proof fn law_who_has_a_combination(
    registered: Seq<(Seq<char>, Command)>,
    binding: Seq<char>,
    normalized: Seq<char>,
)
    ensures
        ({
            let verdict = verdict_of(registered, binding, normalized);
            let taken = exists|i: int|
                0 <= i < registered.len() && (#[trigger] registered[i]).0 == normalized;
            &&& verdict is Unset <==> is_blank(binding)
            &&& verdict is Taken <==> !is_blank(binding) && taken
            &&& verdict matches Verdict::Taken(owner) ==> registered.contains((normalized, owner))
            &&& verdict is Free <==> !is_blank(binding) && !taken && combination(binding) is Some
            &&& verdict matches Verdict::Free(shortcut) ==> combination(binding) == Some(shortcut)
        }),
{
    lemma_owner(registered, normalized);
}

proof fn lemma_owner(registered: Seq<(Seq<char>, Command)>, normalized: Seq<char>)
    ensures
        owner_of(registered, normalized) is Some <==> exists|i: int|
            0 <= i < registered.len() && (#[trigger] registered[i]).0 == normalized,
        owner_of(registered, normalized) matches Some(owner) ==> registered.contains(
            (normalized, owner),
        ),
    decreases registered.len(),
{
    if registered.len() > 0 {
        let rest = registered.drop_first();
        lemma_owner(rest, normalized);
        if registered[0].0 == normalized {
            assert(registered[0] == (normalized, registered[0].1));
        } else {
            if let Some(owner) = owner_of(rest, normalized) {
                let i = choose|i: int| 0 <= i < rest.len() && rest[i] == (normalized, owner);
                assert(registered[i + 1] == rest[i]);
            }
            if exists|i: int|
                0 <= i < registered.len() && (#[trigger] registered[i]).0 == normalized {
                let i = choose|i: int|
                    0 <= i < registered.len() && (#[trigger] registered[i]).0 == normalized;
                assert(rest[i - 1] == registered[i]);
            }
        }
    }
}

/// A refusal names the command that has the combination, or repeats the text that
/// says none. What is not refused is told nothing.
pub proof fn law_refusals_say_why(verdict: Verdict, binding: Seq<char>)
    ensures
        refusal(verdict, binding) is Some <==> verdict is Taken || verdict is Invalid,
        verdict matches Verdict::Taken(owner) ==> refusal(verdict, binding) == Some(
            "a mesma combinação de \""@ + owner.called() + "\""@,
        ),
        verdict is Invalid ==> refusal(verdict, binding) == Some(
            "combinação inválida: "@ + binding,
        ),
{
}

/// A line of the catalogue that says something says all of it.
pub proof fn law_lines_say_it_all(info: CommandInfo, view: InfoView)
    requires
        info_says(info, view),
    ensures
        info.id@ == view.command.key(),
        info.label@ == view.command.called(),
        info.hint@ == view.command.explained(),
        info.default_binding@ == view.command.default_keys(),
        info.binding@ == view.binding,
        info.failure is Some <==> view.failure is Some,
        info.failure matches Some(reason) ==> view.failure == Some(reason@),
{
}

/// Why a command does not respond is what the first line with its name says; where
/// no line has its name, nothing is.
pub proof fn law_the_first_line_tells(commands: Seq<CommandInfo>, key: Seq<char>, i: int)
    requires
        0 <= i <= commands.len(),
        i < commands.len() ==> commands[i].id@ == key,
        forall|j: int| 0 <= j < i ==> (#[trigger] commands[j]).id@ != key,
    ensures
        i < commands.len() ==> failure_in(commands, key) == optional(commands[i].failure),
        i == commands.len() ==> failure_in(commands, key) is None,
    decreases commands.len(),
{
    if i > 0 {
        let rest = commands.drop_first();
        assert(commands[0].id@ != key);
        assert forall|j: int| 0 <= j < i - 1 implies (#[trigger] rest[j]).id@ != key by {
            assert(rest[j] == commands[j + 1]);
        }
        if i < commands.len() {
            assert(rest[i - 1] == commands[i]);
        }
        law_the_first_line_tells(rest, key, i - 1);
    }
}

} // verus!
