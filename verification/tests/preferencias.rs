use vox::commands::Command;
use vox::config::{
    base_url, brings_dictation_sounds, credentials, gerar_token, keep_first_of_each, log_is_full,
    log_path, sanitize_vocabulary, transcription_prompt, Bindings, OutputAction, Settings,
    SettingsFile, WindowPosition, WriteBack, LIMITE_DO_LOG, MAX_SPEED, MAX_VOCABULARY_ITEMS,
    MIN_SPEED,
};
use vox::float::{Double, Single};
use vox::hud::HudRole;

fn padrao() -> Settings {
    Settings::defaults("segredo".to_string(), None)
}

fn simples(valor: f32) -> Single {
    Single { bits: valor.to_bits() }
}

fn duplo(valor: f64) -> Double {
    Double { bits: valor.to_bits() }
}

fn textos(lista: &[&str]) -> Vec<String> {
    lista.iter().map(|t| t.to_string()).collect()
}

#[test]
fn sanitize_limita_velocidade() {
    let mut settings = Settings { speed: simples(9.0), ..padrao() };
    settings.sanitize();
    assert_eq!(settings.speed.bits, MAX_SPEED);
    assert_eq!(f32::from_bits(MAX_SPEED), 2.0);
    settings.speed = simples(0.1);
    settings.sanitize();
    assert_eq!(settings.speed.bits, MIN_SPEED);
    assert_eq!(f32::from_bits(MIN_SPEED), 0.5);
}

#[test]
fn sanitize_remove_vocabulario_duplicado_e_longo() {
    let mut settings = Settings {
        vocabulary: vec![
            "Tauri".into(),
            "tauri".into(),          // duplicata, outra caixa
            "  ".into(),             // vazio
            "x".repeat(60),          // longo demais
            "Raycast".into(),
        ],
        ..padrao()
    };
    settings.sanitize();
    assert_eq!(settings.vocabulary, vec!["Tauri".to_string(), "Raycast".to_string()]);
}

#[test]
fn sanitize_corta_no_teto_de_itens() {
    let mut settings = Settings {
        vocabulary: (0..80).map(|index| format!("termo{index}")).collect(),
        ..padrao()
    };
    settings.sanitize();
    assert_eq!(settings.vocabulary.len(), MAX_VOCABULARY_ITEMS);
}

#[test]
fn palavra_chave_vazia_volta_ao_padrao() {
    let mut settings = Settings { submit_keyword: "   ".into(), ..padrao() };
    settings.sanitize();
    assert_eq!(settings.submit_keyword, "manda ver");
}

#[test]
fn descarta_posicao_de_widget_invalida() {
    let mut settings = Settings {
        hud_position: Some(WindowPosition { x: duplo(f64::NAN), y: duplo(24.0) }),
        ..padrao()
    };
    settings.sanitize();
    assert_eq!(settings.hud_position, None);
}

#[test]
fn posicao_negativa_e_valida() {
    let posicao = WindowPosition { x: duplo(-1200.5), y: duplo(24.0) };
    let mut settings = Settings { hud_position_reading: Some(posicao), ..padrao() };
    settings.hud_position_dictation =
        Some(WindowPosition { x: duplo(0.0), y: duplo(f64::INFINITY) });
    settings.sanitize();
    assert_eq!(settings.hud_position_reading, Some(posicao));
    assert_eq!(settings.hud_position_dictation, None);
}

#[test]
fn volume_que_nao_e_numero_vira_cheio() {
    for (dado, esperado) in [(f32::NAN, 1.0), (f32::INFINITY, 1.0), (-1.0, 0.0), (0.3, 0.3)] {
        let mut settings = Settings { sounds_volume: simples(dado), ..padrao() };
        settings.sanitize();
        assert_eq!(f32::from_bits(settings.sounds_volume.bits), esperado);
    }
    let mut settings = Settings { prebuffer_ratio: simples(0.9), ..padrao() };
    settings.sanitize();
    assert_eq!(f32::from_bits(settings.prebuffer_ratio.bits), 0.5);
}

#[test]
fn intensidade_preset_e_cor() {
    for (dada, esperada) in [(0, 1), (1, 1), (3, 3), (9, 3)] {
        let mut settings = Settings { stt_rewrite_intensity: dada, ..padrao() };
        settings.sanitize();
        assert_eq!(settings.stt_rewrite_intensity, esperada);
    }
    let mut settings = Settings { stt_rewrite_preset: " ".into(), ..padrao() };
    settings.sanitize();
    assert_eq!(settings.stt_rewrite_preset, "fala-limpa");
    for (cor, esperada) in [
        ("#12aBcF", "#12aBcF"),
        (" #12abcf ", " #12abcf "),
        ("#12abc", "#966aff"),
        ("#12abcg", "#966aff"),
        ("x12abcf", "#966aff"),
        ("#12abé", "#966aff"),
        ("", "#966aff"),
    ] {
        let mut settings = Settings { theme_accent: cor.into(), ..padrao() };
        settings.sanitize();
        assert_eq!(settings.theme_accent, esperada);
    }
}

#[test]
fn atalhos_ganham_o_padrao_e_migram_os_antigos() {
    let mut settings = padrao();
    settings.shortcuts.set("stop_reading", "  ".to_string());
    settings.shortcuts.set("read_selection", " Ctrl+Alt+R ".to_string());
    settings.shortcuts.set("desconhecido", " x ".to_string());
    settings.shortcut_dictate = Some("Ctrl+Alt+D".to_string());
    settings.shortcut_read = Some("ignorado".to_string());
    settings.sanitize();
    assert_eq!(settings.binding_of(Command::Dictate), "Ctrl+Alt+D");
    assert_eq!(settings.binding_of(Command::ReadSelection), "Ctrl+Alt+R");
    assert_eq!(settings.binding_of(Command::StopReading), "");
    assert_eq!(settings.binding_of(Command::OpenSettings), "Ctrl+Alt+O");
    assert_eq!(settings.shortcuts.get("desconhecido").as_deref(), Some(" x "));
    assert_eq!(settings.shortcut_dictate, None);
    assert_eq!(settings.shortcut_read, None);
    assert_eq!(settings.shortcuts.entries.len(), 9);
}

#[test]
fn consertar_duas_vezes_e_o_mesmo() {
    let mut settings = Settings {
        vocabulary: textos(&["A", "a", "b"]),
        speed: simples(7.0),
        theme_accent: "lixo".into(),
        ..padrao()
    };
    settings.sanitize();
    let uma = format!("{settings:?}");
    settings.sanitize();
    assert_eq!(format!("{settings:?}"), uma);
}

#[test]
fn padroes_de_quem_comeca() {
    let settings = Settings::defaults("t".to_string(), Some("pasta".to_string()));
    assert_eq!(settings.bridge_token, "t");
    assert_eq!(settings.external_sounds_directory.as_deref(), Some("pasta"));
    assert_eq!(settings.transcription_model, "groq/whisper-large-v3-turbo");
    assert_eq!(settings.output_action, OutputAction::Paste);
    assert_eq!(settings.bridge_port, 8765);
    assert_eq!(settings.voice, "piper:pt_BR-cadu-medium");
    assert_eq!(f32::from_bits(settings.speed.bits), 1.0);
    assert_eq!(f32::from_bits(settings.prebuffer_ratio.bits), 0.10);
    assert!(settings.narrate_tables && settings.live_transcription && settings.service_enabled);
    assert!(!settings.stt_rewrite_enabled && !settings.start_with_windows);
}

#[test]
fn carregar_conserta_o_que_encontra() {
    let (settings, escrita) = Settings::load(SettingsFile::Missing, padrao());
    assert_eq!(escrita, WriteBack::FirstTime);
    assert_eq!(settings.binding_of(Command::Dictate), "Ctrl+Shift+D");
    let (_, escrita) = Settings::load(SettingsFile::Unreadable, padrao());
    assert_eq!(escrita, WriteBack::Again);
    let lido = Settings { speed: simples(9.0), bridge_token: "meu".into(), ..padrao() };
    let (settings, escrita) = Settings::load(SettingsFile::Read(lido), padrao());
    assert_eq!(escrita, WriteBack::Again);
    assert_eq!(settings.speed.bits, MAX_SPEED);
    assert_eq!(settings.bridge_token, "meu");
    let (de_novo, _) = Settings::load(SettingsFile::Read(settings), padrao());
    assert_eq!(de_novo.speed.bits, MAX_SPEED);
    assert_eq!(de_novo.bridge_token, "meu");
}

#[test]
fn painel_nao_apaga_as_posicoes() {
    let posicao = WindowPosition { x: duplo(10.0), y: duplo(20.0) };
    let vigente = Settings { hud_position_reading: Some(posicao), ..padrao() };
    let enviado = Settings { hud_position_reading: None, voice: "outra".into(), ..padrao() };
    let guardado = Settings::accept(enviado, &vigente);
    assert_eq!(guardado.hud_position_reading, Some(posicao));
    assert_eq!(guardado.voice, "outra");
}

#[test]
fn cada_papel_lembra_a_sua_posicao() {
    let mut settings = padrao();
    let posicao = WindowPosition { x: duplo(-0.0), y: duplo(2.0) };
    assert!(settings.remember_position(HudRole::Dictation, posicao));
    // Zero negativo e zero são o mesmo lugar.
    let igual = WindowPosition { x: duplo(0.0), y: duplo(2.0) };
    assert!(!settings.remember_position(HudRole::Dictation, igual));
    assert_eq!(settings.position_of(HudRole::Dictation), Some(posicao));
    assert_eq!(settings.position_of(HudRole::Reading), None);
    assert!(settings.remember_position(HudRole::Reading, igual));
    settings.forget_positions();
    assert_eq!(settings.position_of(HudRole::Dictation), None);
    assert_eq!(settings.position_of(HudRole::Reading), None);
}

#[test]
fn mapa_de_combinacoes_nao_repete_chave() {
    let mut mapa = Bindings::new();
    assert_eq!(mapa.get("a"), None);
    mapa.set("a", "1".to_string());
    mapa.set("b", "2".to_string());
    mapa.set("a", "3".to_string());
    assert_eq!(mapa.get("a").as_deref(), Some("3"));
    assert_eq!(mapa.get("b").as_deref(), Some("2"));
    assert_eq!(mapa.entries.len(), 2);
}

#[test]
fn vocabulario_guarda_a_ordem() {
    assert_eq!(
        sanitize_vocabulary(&textos(&["Ção", "ÇÃO", " Traefik ", "traefik", "z"])),
        textos(&["Ção", " Traefik ", "traefik", "z"])
    );
    assert_eq!(
        keep_first_of_each(&textos(&["a", "b", "c"]), &textos(&["1", "2", "1"])),
        textos(&["a", "b"])
    );
    let exato = "y".repeat(50);
    assert_eq!(sanitize_vocabulary(&vec![exato.clone()]), vec![exato]);
}

#[test]
fn endereco_do_painel_vence() {
    assert_eq!(base_url(Some("http://p"), Some("http://e")), "http://p");
    assert_eq!(base_url(Some(" "), Some("http://e")), "http://e");
    assert_eq!(base_url(None, None), "http://100.122.39.56:8010");
    assert_eq!(base_url(None, Some("  ")), "http://100.122.39.56:8010");
}

#[test]
fn credencial_precisa_de_nome() {
    let texto = |t: &str| Some(t.to_string());
    let dada = credentials(None, None, texto("u"), texto("")).unwrap();
    assert_eq!((dada.username.as_str(), dada.password.as_str()), ("u", ""));
    assert!(credentials(None, None, texto(" "), texto("s")).is_none());
    assert!(credentials(None, None, texto("u"), None).is_none());
    assert!(credentials(None, None, None, texto("s")).is_none());
    let painel = credentials(texto("p"), texto("x"), texto("u"), texto("s")).unwrap();
    assert_eq!(painel.username, "p");
}

#[test]
fn token_tem_trinta_e_dois_digitos() {
    assert_eq!(gerar_token(0, 255), "000000000000000000000000000000ff");
    assert_eq!(gerar_token(u64::MAX, 0).len(), 32);
}

#[test]
fn log_fica_ao_lado_das_preferencias() {
    assert_eq!(log_path("C:\\vox\\settings.json"), "C:\\vox\\vox.log");
    assert_eq!(log_path("vox-settings.json"), "vox.log");
    assert!(!log_is_full(LIMITE_DO_LOG));
    assert!(log_is_full(LIMITE_DO_LOG + 1));
    assert!(brings_dictation_sounds("Raycast.Raycast_1.0_x64"));
    assert!(!brings_dictation_sounds("Raycast_Raycast"));
}

#[test]
fn prompt_traz_os_termos_primeiro() {
    let monta = |vocabulario: &[&str], instrucoes: &str| {
        transcription_prompt(&Settings {
            vocabulary: textos(vocabulario),
            custom_instructions: instrucoes.into(),
            ..padrao()
        })
    };
    assert_eq!(monta(&["Traefik", "Vosk"], " fale pouco "), "Termos: Traefik, Vosk. fale pouco");
    assert_eq!(monta(&["Traefik"], " "), "Termos: Traefik.");
    assert_eq!(monta(&[], " só isto "), "só isto");
    assert_eq!(monta(&[], ""), "");
}

#[test]
fn vocabulario_fica_com_o_primeiro_de_cada() {
    let dados = textos(&["Zeta", "ALFA", "", "alfa", "beta", "zeta", "Alfa"]);
    assert_eq!(sanitize_vocabulary(&dados), textos(&["Zeta", "ALFA", "beta"]));
}
