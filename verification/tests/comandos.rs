use vox::commands::{Command, CommandInfo};
use vox::config::Settings;
use vox::paste::SelectionSource;
use vox::reading::ReadingState;
use vox::service::{
    after_copy, aplicar_estado_do_servico, close_requested, executar, given_text, ler, read_text,
    set_service_enabled, stays_alive, toggle_reading, toggle_reading_shortcut, Action, AfterCopy,
    Closing, ReadingKey, ServiceStep,
};
use vox::shortcuts::{
    catalogo_atual, code_from_str, motivo_curto, motivo_curto_dado, parse_shortcut, Key, Modifiers,
    Registration, Shortcut, Verdict,
};
use vox::text::to_chars;
use vox::tray::{build, responder_menu, voices_url, MenuAction, MenuEntry, ShortcutReport};

fn padrao() -> Settings {
    Settings::defaults("t".to_string(), None)
}

fn atalho(control: bool, shift: bool, alt: bool, system: bool, key: Key) -> Option<Shortcut> {
    Some(Shortcut { modifiers: Modifiers { control, shift, alt, system }, key })
}

#[test]
fn ids_e_combinacoes_sao_unicos() {
    // Dois comandos com o mesmo id compartilhariam a preferência em silêncio;
    // com a mesma combinação, o segundo registro falharia e o comando
    // simplesmente não responderia.
    let mut ids: Vec<&str> = Command::ALL.iter().map(|c| c.id()).collect();
    let total = ids.len();
    ids.sort_unstable();
    ids.dedup();
    assert_eq!(ids.len(), total, "há ids repetidos no catálogo");

    let mut teclas: Vec<&str> = Command::ALL.iter().map(|c| c.default_binding()).collect();
    teclas.sort_unstable();
    teclas.dedup();
    assert_eq!(teclas.len(), total, "há combinações padrão repetidas");
}

/// No ABNT2 o `AltGr` é `Ctrl+Alt`. Um atalho global em `Ctrl+Alt+<letra>`
/// rouba do teclado o caractere que aquela letra produziria — e as letras
/// abaixo produzem caractere de verdade.
#[test]
fn nenhum_padrao_rouba_uma_tecla_do_abnt2() {
    const OCUPADAS_PELO_ALTGR: [&str; 6] = ["Q", "W", "E", "R", "C", "5"];

    for comando in Command::ALL {
        let combinacao = comando.default_binding();
        if !combinacao.starts_with("Ctrl+Alt+") {
            continue;
        }
        let tecla = combinacao.trim_start_matches("Ctrl+Alt+");
        assert!(
            !OCUPADAS_PELO_ALTGR.contains(&tecla),
            "{} usa Ctrl+Alt+{tecla}, que no ABNT2 é AltGr e produz caractere",
            comando.id()
        );
    }
}

#[test]
fn catalogo_na_ordem_do_painel() {
    let ids: Vec<&str> = Command::ALL.iter().map(|c| c.id()).collect();
    assert_eq!(
        ids,
        vec![
            "dictate", "cancel_dictation", "read_selection", "toggle_playback", "stop_reading",
            "toggle_captions", "show_widget", "open_settings",
        ]
    );
    assert_eq!(Command::ReadSelection.label(), "Ler a seleção");
    assert_eq!(Command::OpenSettings.hint(), "Esta janela.");
    assert_eq!(Command::StopReading.default_binding(), "Ctrl+Alt+K");
}

#[test]
fn combinacoes_que_se_entendem() {
    assert_eq!(
        parse_shortcut("Ctrl+Shift+D"),
        atalho(true, true, false, false, Key::Letter('d'))
    );
    assert_eq!(
        parse_shortcut(" control + ALT ++ space "),
        atalho(true, false, true, false, Key::Space)
    );
    assert_eq!(parse_shortcut("Win+F12"), atalho(false, false, false, true, Key::Function(12)));
    assert_eq!(parse_shortcut("cmd+a+b"), atalho(false, false, false, true, Key::Letter('b')));
    for comando in Command::ALL {
        assert!(parse_shortcut(comando.default_binding()).is_some());
    }
}

#[test]
fn combinacoes_que_nao_se_entendem() {
    assert_eq!(parse_shortcut("D"), None);
    assert_eq!(parse_shortcut("Ctrl+Shift"), None);
    assert_eq!(parse_shortcut("Ctrl+A+ç"), None);
    assert_eq!(parse_shortcut("Ctrl+F13"), None);
    assert_eq!(parse_shortcut("Ctrl+F01"), None);
    assert_eq!(parse_shortcut(""), None);
}

#[test]
fn teclas_pelo_nome() {
    for n in 1..=12u8 {
        let nome = to_chars(&format!("f{n}"));
        assert_eq!(code_from_str(&nome), Some(Key::Function(n)));
    }
    for letra in 'a'..='z' {
        assert_eq!(code_from_str(&[letra]), Some(Key::Letter(letra)));
    }
    assert_eq!(code_from_str(&['A']), None);
    assert_eq!(code_from_str(&[]), None);
}

#[test]
fn registro_conta_o_que_falhou() {
    let mut registro = Registration::new();
    let ditar = registro.register(Command::Dictate, " Ctrl+Shift+D ").unwrap();
    assert_eq!(ditar.normalized, "ctrl+shift+d");
    registro.answer(ditar, Ok(()));
    // A mesma combinação, em outra caixa, já tem dono.
    assert!(registro.register(Command::CancelDictation, "CTRL+shift+d").is_none());
    assert!(registro.register(Command::ReadSelection, "  ").is_none());
    assert!(registro.register(Command::TogglePlayback, "Ctrl+??").is_none());
    let parar = registro.register(Command::StopReading, "Ctrl+Alt+K").unwrap();
    registro.answer(parar, Err("HotKey already registered".to_string()));
    // O que não se conseguiu não fica com dono.
    assert!(registro.register(Command::ShowWidget, "Ctrl+Alt+K").is_some());

    let falhas: Vec<Option<&str>> =
        registro.commands.iter().map(|info| info.failure.as_deref()).collect();
    assert_eq!(
        falhas,
        vec![
            None,
            Some("a mesma combinação de \"Ditar\""),
            None,
            Some("combinação inválida: Ctrl+??"),
            Some("já em uso por outro app"),
        ]
    );
    assert_eq!(registro.commands[0].binding, " Ctrl+Shift+D ");
    assert_eq!(registro.registered.len(), 1);
    assert!(matches!(registro.judge_given("x", "ctrl+shift+d"), Verdict::Taken(Command::Dictate)));
}

#[test]
fn registra_o_catalogo_inteiro() {
    let mut settings = padrao();
    settings.shortcuts.set("cancel_dictation", "".to_string());
    settings.shortcuts.set("read_selection", "ctrl+shift+d".to_string());
    settings.shortcuts.set("show_widget", "V".to_string());
    let mut registro = Registration::new();
    let mut pedidos = Vec::new();
    while let Some(pedido) = registro.register_shortcuts(&settings) {
        pedidos.push(pedido.command.id());
        let falha = pedido.command == Command::StopReading;
        registro.answer(pedido, if falha { Err("1409".to_string()) } else { Ok(()) });
    }
    assert_eq!(
        pedidos,
        vec!["dictate", "toggle_playback", "stop_reading", "toggle_captions", "open_settings"]
    );
    let linhas: Vec<(&str, bool)> =
        registro.commands.iter().map(|info| (info.id, info.failure.is_some())).collect();
    assert_eq!(
        linhas,
        vec![
            ("dictate", false),
            ("cancel_dictation", false),
            ("read_selection", true),
            ("toggle_playback", false),
            ("stop_reading", true),
            ("toggle_captions", false),
            ("show_widget", true),
            ("open_settings", false),
        ]
    );
    assert!(registro.register_shortcuts(&settings).is_none());
}

#[test]
fn motivos_cabem_no_menu() {
    assert_eq!(motivo_curto("Hotkey already REGISTERED"), "já em uso por outro app");
    assert_eq!(motivo_curto("erro 1409 do sistema"), "já em uso por outro app");
    assert_eq!(motivo_curto("outro erro"), "outro erro");
    assert_eq!(motivo_curto(&"é".repeat(80)), "é".repeat(60));
    assert_eq!(motivo_curto_dado("X", "registered"), "já em uso por outro app");
    assert_eq!(motivo_curto_dado("X", "x"), "X");
}

#[test]
fn catalogo_mostra_a_combinacao_e_a_falha() {
    let mut settings = padrao();
    settings.shortcuts.set("dictate", "Ctrl+Alt+D".to_string());
    let falha = CommandInfo {
        id: "read_selection",
        label: "",
        hint: "",
        default_binding: "",
        binding: String::new(),
        failure: Some("tomada".to_string()),
    };
    let catalogo = catalogo_atual(&settings, &vec![falha]);
    assert_eq!(catalogo.len(), 8);
    assert_eq!(catalogo[0].binding, "Ctrl+Alt+D");
    assert_eq!(catalogo[0].failure, None);
    assert_eq!(catalogo[2].binding, "Ctrl+Alt+L");
    assert_eq!(catalogo[2].failure.as_deref(), Some("tomada"));
}

#[test]
fn atalho_de_leitura_comeca_pausa_e_retoma() {
    assert_eq!(toggle_reading_shortcut(ReadingState::Playing), ReadingKey::Pause);
    assert_eq!(toggle_reading_shortcut(ReadingState::Paused), ReadingKey::Resume);
    for estado in [ReadingState::Idle, ReadingState::Complete, ReadingState::Failed,
        ReadingState::Generating] {
        assert_eq!(toggle_reading_shortcut(estado), ReadingKey::CopySelection);
        // Quem só quer pausar nunca começa uma leitura.
        assert_eq!(toggle_reading(estado), ReadingKey::Nothing);
    }
    assert_eq!(toggle_reading(ReadingState::Playing), ReadingKey::Pause);
}

#[test]
fn cada_comando_faz_o_seu() {
    let faz = |comando| executar(comando, ReadingState::Playing, true);
    assert_eq!(faz(Command::Dictate), Action::ToggleDictation);
    assert_eq!(faz(Command::CancelDictation), Action::CancelDictation);
    assert_eq!(faz(Command::ReadSelection), Action::Reading(ReadingKey::Pause));
    assert_eq!(faz(Command::TogglePlayback), Action::Reading(ReadingKey::Pause));
    assert_eq!(faz(Command::StopReading), Action::StopReading);
    assert_eq!(faz(Command::ToggleCaptions), Action::Captions(false));
    assert_eq!(faz(Command::ShowWidget), Action::ShowWidget);
    assert_eq!(faz(Command::OpenSettings), Action::OpenSettings);
}

#[test]
fn sem_nada_para_ler_abre_o_leitor() {
    let copiado = Some(("texto".to_string(), SelectionSource::Selection));
    assert!(matches!(after_copy(copiado), AfterCopy::Speak(texto) if texto == "texto"));
    let vazio = Some((" \n".to_string(), SelectionSource::ClipboardFallback));
    assert!(matches!(after_copy(vazio), AfterCopy::OpenReader));
    assert!(matches!(after_copy(None), AfterCopy::OpenReader));
    assert_eq!(given_text(Some("a".to_string())).as_deref(), Some("a"));
    assert_eq!(given_text(Some(" ".to_string())), None);
    assert_eq!(read_text(" ".to_string()), Err("Nada selecionado para ler.".to_string()));
    assert_eq!(read_text("a".to_string()), Ok("a".to_string()));
}

#[test]
fn extensao_recebe_os_trechos_que_serao_falados() {
    assert_eq!(ler(true, "Um. Dois."), vec!["Um. Dois."]);
    assert!(ler(false, "Um. Dois.").is_empty());
}

#[test]
fn servico_desligado_encerra_tudo() {
    let mut settings = padrao();
    assert!(set_service_enabled(&mut settings, true).is_empty());
    assert_eq!(
        set_service_enabled(&mut settings, false),
        vec![
            ServiceStep::ReleaseShortcuts,
            ServiceStep::StopReading,
            ServiceStep::ClearBridge,
            ServiceStep::CancelDictation,
            ServiceStep::RefreshTray,
        ]
    );
    assert!(!settings.service_enabled);
    assert_eq!(
        aplicar_estado_do_servico(true),
        vec![ServiceStep::RegisterShortcuts, ServiceStep::RefreshTray]
    );
}

#[test]
fn janelas_se_escondem_em_vez_de_fechar() {
    assert_eq!(close_requested("settings"), Closing::Hide);
    assert_eq!(close_requested("reader"), Closing::HideAndStopReading);
    assert_eq!(close_requested("live"), Closing::Close);
    assert!(stays_alive(None));
    assert!(!stays_alive(Some(0)));
}

#[test]
fn menu_da_bandeja_conta_as_falhas() {
    let mut registro = Registration::new();
    let ditar = registro.register(Command::Dictate, "Ctrl+Shift+D").unwrap();
    registro.answer(ditar, Ok(()));
    let ler = registro.register(Command::ReadSelection, "Ctrl+Alt+L").unwrap();
    registro.answer(ler, Err("1409".to_string()));
    let relato = ShortcutReport::of(registro.commands);
    assert!(relato.has_failure());
    let (menu, dica) = build(&relato);
    assert_eq!(dica, "Vox — um atalho não pôde ser registrado");
    let rotulos: Vec<String> = menu
        .iter()
        .filter_map(|linha| match linha {
            MenuEntry::Item { label, .. } => Some(label.clone()),
            _ => None,
        })
        .collect();
    assert_eq!(rotulos[0], "Ditar   Ctrl+Shift+D");
    assert_eq!(rotulos[1], "⚠ Ler — indisponível (já em uso por outro app)");
    assert_eq!(rotulos.len(), 8);

    let calmo = ShortcutReport::of(Vec::new());
    assert!(!calmo.has_failure());
    assert_eq!(build(&calmo).1, "Vox — ditado e leitura por voz");
}

#[test]
fn itens_do_menu_tem_acao() {
    for (id, acao) in [
        ("sair", MenuAction::Quit),
        ("abrir_leitor", MenuAction::ShowReader),
        ("preferencias", MenuAction::OpenSettings),
        ("ler_clipboard", MenuAction::ReadClipboard),
        ("abrir_vozes", MenuAction::OpenVoices),
        ("abrir_config", MenuAction::OpenSettingsFile),
        ("info_ditado", MenuAction::Nothing),
    ] {
        assert_eq!(responder_menu(id), acao);
    }
    assert_eq!(voices_url("http://h"), "http://h/vozes");
}
