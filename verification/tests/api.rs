use vox::api::{
    ensure_ok, judge_status, rewritten, split_sentences, split_text, Body, Credentials, Method,
    RewriteReport, RewriteResult, SpeechApi, TtsResponse, CHUNK_TARGET_CHARS, FIRST_CHUNK_CHARS,
};
use vox::float::Single;

#[test]
fn primeiro_trecho_sai_curto() {
    let texto = "Primeira frase curta. Segunda frase um pouco mais longa que a primeira, \
                 para empurrar o acumulador. Terceira frase.";
    let chunks = split_text(texto);
    assert!(chunks.len() >= 2, "esperava fatiar, veio {chunks:?}");
    assert!(
        chunks[0].chars().count() <= FIRST_CHUNK_CHARS,
        "o primeiro trecho deveria caber em {FIRST_CHUNK_CHARS}: {:?}",
        chunks[0]
    );
}

#[test]
fn texto_vazio_nao_gera_trecho() {
    assert!(split_text("   \n  ").is_empty());
}

#[test]
fn frase_unica_gigante_nao_e_partida() {
    let longa = "palavra ".repeat(80);
    let chunks = split_text(&longa);
    assert_eq!(chunks.len(), 1, "frase sem pontuação deve sair inteira");
}

#[test]
fn frases_terminam_na_pontuacao() {
    assert_eq!(
        split_sentences("Um. Dois! Três? Quatro… cinco; seis"),
        vec!["Um.", "Dois!", "Três?", "Quatro…", "cinco;", "seis"]
    );
    assert_eq!(split_sentences(" . \n "), vec!["."]);
    assert!(split_sentences("").is_empty());
}

#[test]
fn trechos_guardam_o_texto_inteiro() {
    let texto = "Uma frase.  Outra\tfrase mais comprida; e mais uma, com vírgula.\nFim? Sim!";
    let visivel = |t: &str| t.chars().filter(|c| !c.is_whitespace()).collect::<String>();
    assert_eq!(visivel(&split_text(texto).join(" ")), visivel(texto));
}

#[test]
fn trechos_seguintes_crescem_ate_o_alvo() {
    let texto = "Frase de tamanho médio para encher o trecho. ".repeat(20);
    let chunks = split_text(&texto);
    assert!(chunks[0].chars().count() <= FIRST_CHUNK_CHARS + 1);
    for chunk in &chunks[1..] {
        assert!(chunk.chars().count() <= CHUNK_TARGET_CHARS + 1);
    }
    assert!(chunks[1].chars().count() > FIRST_CHUNK_CHARS);
}

#[test]
fn trecho_exato_no_limite() {
    let primeira = format!("{}.", "a".repeat(39));
    let segunda = format!("{}.", "b".repeat(49));
    let junto = split_text(&format!("{primeira} {segunda}"));
    assert_eq!(junto, vec![format!("{primeira} {segunda}")]);
    let maior = format!("{}.", "b".repeat(50));
    let separado = split_text(&format!("{primeira} {maior}"));
    assert_eq!(separado, vec![primeira, maior]);
}

fn servico() -> SpeechApi {
    SpeechApi::new("http://host:8010//", None)
}

#[test]
fn endereco_da_api_perde_as_barras() {
    let pedido = servico().health();
    assert_eq!(pedido.url, "http://host:8010/health");
    assert_eq!(pedido.method, Method::Get);
    assert!(pedido.login.is_none());
    assert!(matches!(pedido.body, Body::Nothing));
    assert_eq!(servico().voices().url, "http://host:8010/voices/names");
    assert_eq!(servico().rewrite_presets().url, "http://host:8010/text/presets");
}

#[test]
fn pedido_leva_a_credencial() {
    let credenciais = Credentials { username: "u".to_string(), password: "p".to_string() };
    let pedido = SpeechApi::new("http://host", Some(credenciais)).health();
    let login = pedido.login.unwrap();
    assert_eq!((login.username.as_str(), login.password.as_str()), ("u", "p"));
}

#[test]
fn prompt_em_branco_nao_vai_junto() {
    let campos = |prompt: &str| {
        let pedido = servico().transcribe(vec![1, 2], "vosk", prompt);
        assert_eq!(pedido.method, Method::Post);
        assert_eq!(pedido.url, "http://host:8010/v1/audio/transcriptions");
        match pedido.body {
            Body::Form { wav, fields } => {
                assert_eq!(wav, vec![1, 2]);
                fields.iter().map(|campo| format!("{}={}", campo.0, campo.1)).collect::<Vec<_>>()
            }
            outro => panic!("{outro:?}"),
        }
    };
    assert_eq!(campos("  "), vec!["model=vosk", "response_format=json"]);
    assert_eq!(
        campos("Termos: x."),
        vec!["model=vosk", "response_format=json", "prompt=Termos: x."]
    );
}

#[test]
fn pedidos_de_texto() {
    let pedido = servico().prepare_text("oi", true, false);
    assert_eq!(pedido.url, "http://host:8010/text/prepare");
    match pedido.body {
        Body::Prepare(preparo) => {
            assert_eq!(preparo.text, "oi");
            assert!(preparo.sanitize && preparo.normalize && !preparo.narrate_tables);
        }
        outro => panic!("{outro:?}"),
    }
    let modelo = |dado: Option<&str>| match servico().rewrite_text("t", "p", 2, dado).body {
        Body::Rewrite(reescrita) => reescrita.model,
        outro => panic!("{outro:?}"),
    };
    assert_eq!(modelo(Some("m")).as_deref(), Some("m"));
    assert_eq!(modelo(Some(" ")), None);
    assert_eq!(modelo(None), None);
}

#[test]
fn fala_e_depois_o_audio() {
    let pedido = servico().speak("oi", "cadu", Single { bits: 1.5f32.to_bits() });
    assert_eq!(pedido.url, "http://host:8010/tts");
    match pedido.body {
        Body::Tts(fala) => {
            assert_eq!((fala.text.as_str(), fala.voice.as_str()), ("oi", "cadu"));
            assert_eq!(f32::from_bits(fala.speed.bits), 1.5);
        }
        outro => panic!("{outro:?}"),
    }
    let meta = TtsResponse {
        url_path: "/audio/x.mp3".to_string(),
        voice: "cadu".to_string(),
        cached: false,
        elapsed_ms: 1,
        bytes: 2,
    };
    let audio = servico().spoken(&meta);
    assert_eq!((audio.method, audio.url.as_str()), (Method::Get, "http://host:8010/audio/x.mp3"));
}

#[test]
fn trechos_sao_frases_inteiras() {
    let texto = "Uma frase. Outra frase um tanto mais comprida! E a terceira; quarta? ".repeat(5);
    let frases = split_sentences(texto.trim());
    let mut proxima = 0;
    for trecho in split_text(&texto) {
        let mut montado = frases[proxima].clone();
        proxima += 1;
        while montado.len() < trecho.len() {
            montado = format!("{montado} {}", frases[proxima]);
            proxima += 1;
        }
        assert_eq!(montado, trecho);
    }
    assert_eq!(proxima, frases.len());
}

#[test]
fn status_de_sucesso_passa() {
    assert_eq!(ensure_ok(200), Ok(()));
    assert_eq!(ensure_ok(299), Ok(()));
    assert!(ensure_ok(199).is_err());
    assert!(ensure_ok(300).is_err());
}

#[test]
fn status_de_erro_diz_qual() {
    assert_eq!(ensure_ok(404), Err("a speech-api respondeu 404 Not Found".to_string()));
    assert_eq!(
        ensure_ok(599),
        Err("a speech-api respondeu 599 <unknown status code>".to_string())
    );
    assert_eq!(
        ensure_ok(401),
        Err("a speech-api recusou a credencial (401). Confira VOX_API_USER e VOX_API_PASSWORD."
            .to_string())
    );
    assert_eq!(judge_status(500, "X"), Err("a speech-api respondeu X".to_string()));
    assert_eq!(judge_status(204, "X"), Ok(()));
}

#[test]
fn reescrita_nunca_falha_para_quem_pediu() {
    let volta = rewritten("o que foi ditado", None);
    assert_eq!(volta.text, "o que foi ditado");
    assert!(!volta.rewritten.applied);
    assert_eq!(volta.rewritten.elapsed_ms, 0);
    assert_eq!(volta.rewritten.error, None);
    assert_eq!(volta.rewritten.skipped, None);

    let feita = RewriteResult {
        text: "reescrito".to_string(),
        rewritten: RewriteReport {
            applied: true,
            elapsed_ms: 7,
            error: None,
            skipped: Some("curto".to_string()),
        },
    };
    let volta = rewritten("o que foi ditado", Some(feita));
    assert_eq!(volta.text, "reescrito");
    assert!(volta.rewritten.applied);
    assert_eq!(volta.rewritten.elapsed_ms, 7);
    assert_eq!(volta.rewritten.skipped.as_deref(), Some("curto"));
}

#[test]
fn cortar_o_que_foi_cortado_da_o_mesmo() {
    let longa = "uma frase que se repete e enche o trecho. ".repeat(12);
    for texto in ["", "  ", "a.b;c", "... e?\tsim\n\nnão!", "fim sem ponto", longa.as_str()] {
        let trechos = split_text(texto);
        assert_eq!(split_text(&trechos.join(" ")), trechos);
        let esticado = texto.split_whitespace().collect::<Vec<_>>().join(" \n\t ");
        assert_eq!(split_text(&esticado), trechos);
    }
}
