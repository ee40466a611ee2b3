use vox::config::{SubmitKey, SubmitMode};
use vox::paste::{
    copy_keys, copy_selection, copy_selection_with_source, fit_given, fit_to_context,
    keeps_case_given, keeps_own_case, paste, resolve_submit, selection_arrived, split_at_keyword,
    strip_given, strip_submit_keyword, Clipboard, KeyAction, KeyName, KeyStep, SelectionSource,
    WriteAttempt, WriteStep,
};

#[test]
fn continuacao_de_frase_vira_minuscula() {
    assert_eq!(fit_to_context("Então fui", Some("Eu acordei e")), " então fui");
}

#[test]
fn depois_de_ponto_mantem_maiuscula() {
    assert_eq!(fit_to_context("Então fui", Some("Cheguei.")), " Então fui");
}

#[test]
fn campo_vazio_mantem_e_nao_poe_espaco() {
    assert_eq!(fit_to_context("Olá", Some("")), "Olá");
}

#[test]
fn nao_duplica_espaco() {
    assert_eq!(fit_to_context("teste", Some("frase ")), "teste");
}

#[test]
fn sigla_nao_e_rebaixada() {
    assert_eq!(fit_to_context("API nova", Some("usei a")), " API nova");
}

#[test]
fn olha_apenas_a_linha_corrente() {
    // Linha corrente vazia: frase nova, e a quebra já serve de separador —
    // por isso nenhum espaço à frente.
    assert_eq!(fit_to_context("Nova", Some("Frase anterior.\n")), "Nova");
}

#[test]
fn palavra_chave_e_removida_com_pontuacao() {
    assert_eq!(
        strip_submit_keyword("compra o pão manda ver.", "manda ver").as_deref(),
        Some("compra o pão")
    );
}

#[test]
fn palavra_chave_grudada_nao_casa() {
    assert_eq!(strip_submit_keyword("passa o revolver", "ver"), None);
}

#[test]
fn palavra_chave_solta_casa_mesmo_curta() {
    assert_eq!(strip_submit_keyword("manda ver", "ver").as_deref(), Some("manda"));
}

#[test]
fn texto_menor_que_a_palavra_chave() {
    assert_eq!(strip_submit_keyword("oi", "manda ver"), None);
}

#[test]
fn sem_palavra_chave_nao_marca_envio() {
    let (text, submit) = resolve_submit("só um texto", SubmitMode::Keyword, "manda ver");
    assert_eq!(text, "só um texto");
    assert!(!submit);
}

#[test]
fn modo_auto_envia_sem_mexer_no_texto() {
    let (text, submit) = resolve_submit("qualquer coisa", SubmitMode::Auto, "manda ver");
    assert_eq!(text, "qualquer coisa");
    assert!(submit);
}

#[test]
fn modo_desligado_nao_tira_a_palavra_chave() {
    let (text, submit) = resolve_submit("vai manda ver", SubmitMode::Disabled, "manda ver");
    assert_eq!((text.as_str(), submit), ("vai manda ver", false));
    let (text, submit) = resolve_submit("vai manda ver", SubmitMode::Keyword, "manda ver");
    assert_eq!((text.as_str(), submit), ("vai", true));
}

#[test]
fn palavra_chave_em_outra_caixa_e_com_acento() {
    assert_eq!(strip_submit_keyword("Fim, ENVIAR JÁ!…", " enviar já ").as_deref(), Some("Fim,"));
    assert_eq!(strip_submit_keyword("Manda ver", "manda ver").as_deref(), Some(""));
    assert_eq!(strip_submit_keyword("texto", "   "), None);
    assert_eq!(
        split_at_keyword("um dois.", "dois"),
        Some(("um ".to_string(), "dois".to_string()))
    );
    assert_eq!(split_at_keyword("um", "dois"), None);
    assert_eq!(strip_given("um  ", true).as_deref(), Some("um"));
    assert_eq!(strip_given("um ", false), None);
    assert_eq!(strip_given("um", true), None);
}

#[test]
fn sem_contexto_o_texto_nao_muda() {
    assert_eq!(fit_to_context("Olá", None), "Olá");
    assert_eq!(fit_to_context("", Some("a")), " ");
}

#[test]
fn pronome_em_ingles_fica_como_esta() {
    assert_eq!(fit_to_context("I am", Some("and")), " I am");
    assert_eq!(fit_to_context("I'm", Some("and")), " I'm");
    assert_eq!(fit_to_context("Ir embora", Some("quero")), " ir embora");
    assert!(keeps_own_case("I"));
    assert!(keeps_own_case(""));
    assert!(!keeps_own_case("Ir"));
}

#[test]
fn minuscula_de_mais_de_um_caractere() {
    assert_eq!(fit_to_context("\u{130}stanbul", Some("em")), " i\u{307}stanbul");
    assert_eq!(fit_to_context("École", Some("a")), " école");
}

#[test]
fn ajuste_com_a_caixa_dada() {
    assert_eq!(fit_given("Nome", Some("a"), true, "n"), " Nome");
    assert_eq!(fit_given("Nome", Some("a"), false, "n"), " nome");
    assert_eq!(fit_given("Nome", Some("a… \n  "), false, "n"), "Nome");
    assert_eq!(fit_given("Nome", Some("a!"), false, "n"), " Nome");
    assert!(keeps_case_given("AB", true, true));
    assert!(!keeps_case_given("Ab", true, false));
    assert!(keeps_case_given("ab", false, false));
}

#[test]
fn escrita_conferida_para_quando_confirma() {
    let mut escrita = Clipboard::new();
    let passo = escrita.set_text_verified("a", WriteAttempt::ReadBack("a".to_string()));
    assert!(matches!(passo, WriteStep::Done));
    let mut escrita = Clipboard::new();
    assert!(matches!(escrita.set_text_verified("a", WriteAttempt::Unreadable), WriteStep::Done));
}

#[test]
fn escrita_conferida_desiste_na_terceira() {
    let mut escrita = Clipboard::new();
    for _ in 0..2 {
        let passo = escrita.set_text_verified("a", WriteAttempt::ReadBack("b".to_string()));
        assert!(matches!(passo, WriteStep::Again));
    }
    match escrita.set_text_verified("a", WriteAttempt::ReadBack("b".to_string())) {
        WriteStep::Failed(motivo) => assert_eq!(
            motivo,
            "a área de transferência não confirmou o texto após 3 tentativas"
        ),
        outro => panic!("{outro:?}"),
    }
    let mut escrita = Clipboard::new();
    escrita.set_text_verified("a", WriteAttempt::Refused("ocupada".to_string()));
    escrita.set_text_verified("a", WriteAttempt::ReadBack("b".to_string()));
    match escrita.set_text_verified("a", WriteAttempt::ReadBack("b".to_string())) {
        WriteStep::Failed(motivo) => assert_eq!(motivo, "ocupada"),
        outro => panic!("{outro:?}"),
    }
}

#[test]
fn selecao_nova_devolve_o_que_havia() {
    let antes = Some("antes".to_string());
    assert!(selection_arrived(&antes, "novo"));
    assert!(!selection_arrived(&antes, "antes"));
    assert!(!selection_arrived(&antes, "  "));
    assert!(selection_arrived(&None, "x"));
    let selecao = copy_selection_with_source(antes, "novo".to_string());
    assert_eq!(selecao.source, SelectionSource::Selection);
    assert_eq!(selecao.restore.as_deref(), Some("antes"));
    assert_eq!(copy_selection(selecao), "novo");
}

#[test]
fn sem_selecao_vale_o_que_ja_estava() {
    let selecao = copy_selection_with_source(Some("antes".to_string()), "antes".to_string());
    assert_eq!(selecao.source, SelectionSource::ClipboardFallback);
    assert_eq!(selecao.text, "antes");
    assert_eq!(selecao.restore, None);
    assert_eq!(copy_selection_with_source(None, String::new()).text, "");
}

#[test]
fn teclas_de_colar_e_enviar() {
    let so_colar = paste(None);
    assert_eq!(so_colar.len(), 4);
    assert_eq!(so_colar[2], KeyStep::Key(KeyName::Letter('v'), KeyAction::Click));
    let com_enter = paste(Some(SubmitKey::Enter));
    assert_eq!(
        com_enter[4..],
        [KeyStep::Wait(50), KeyStep::Key(KeyName::Return, KeyAction::Click)]
    );
    let com_shift = paste(Some(SubmitKey::ShiftEnter));
    assert_eq!(
        com_shift[5..],
        [
            KeyStep::Key(KeyName::Shift, KeyAction::Press),
            KeyStep::Key(KeyName::Return, KeyAction::Click),
            KeyStep::Key(KeyName::Shift, KeyAction::Release),
        ]
    );
    let copiar = copy_keys();
    assert_eq!(copiar[0], KeyStep::Key(KeyName::Alt, KeyAction::Release));
    assert_eq!(copiar[6], KeyStep::Key(KeyName::Letter('c'), KeyAction::Click));
}
