use vox::api::{RewriteReport, RewriteResult};
use vox::audio::{
    bytes_of_samples, choose_device, list_input_devices, source_description, Capture,
    DeviceChoice, Recording,
};
use vox::config::{OutputAction, SubmitKey, SubmitMode};
use vox::dictation::{
    CancelStep, Delivery, DeliveryPrefs, Dictation, DictationSession, Effect, Event, Phase, Stage,
    StartStep, Toggle,
};
use vox::float::Single;
use vox::recordings::{
    caminho_meta, caminho_wav, dir, list, mark_saved, novo_id, retry, save, set_result,
    RecordingMeta, Status, EXPIRACAO,
};
use vox::sounds::Cue;
use vox::stt_stream::{
    authorization, basic_header, build_request, config_message, eof_message, websocket_url,
    Command, Incoming, LiveTranscript, Outgoing, Progress, ServerMessage, SttStream, Waited,
};

fn simples(valor: f32) -> Single {
    Single { bits: valor.to_bits() }
}

fn preferencias() -> DeliveryPrefs {
    DeliveryPrefs {
        submit_mode: SubmitMode::Keyword,
        submit_key: SubmitKey::Enter,
        rewrite: false,
        output_action: OutputAction::Paste,
    }
}

fn entrega(prefs: DeliveryPrefs, fala: bool, ao_vivo: bool) -> Delivery {
    let gravada = Recording { speech_detected: fala, ..gravacao(vec![0; 4000]) };
    let antes = Some("antes e".to_string());
    let (entrega, primeiro) =
        Delivery::new(prefs, "manda ver".to_string(), &gravada, ao_vivo, antes);
    assert!(matches!(primeiro, Effect::SaveBackup));
    entrega
}

fn fechado(outcome: Result<String, String>) -> Event {
    Event::StreamClosed { outcome, shown: "ficou isto".to_string() }
}

/// Os efeitos em poucas palavras, para comparar a ordem.
fn resumo(efeitos: &[Effect]) -> Vec<String> {
    efeitos
        .iter()
        .map(|efeito| match efeito {
            Effect::NoteBackup { status, text, error } => {
                format!("nota {} {:?} {:?}", status.name(), text, error)
            }
            Effect::Emit(aviso) => {
                format!("avisa {} {:?} {:?}", aviso.state, aviso.title, aviso.message)
            }
            Effect::Play(cue) => format!("toca {cue:?}"),
            Effect::Paste(texto, tecla) => format!("cola {texto:?} {tecla:?}"),
            Effect::ToClipboard(texto) => format!("copia {texto:?}"),
            Effect::Rewrite(texto) => format!("reescreve {texto:?}"),
            outro => format!("{outro:?}"),
        })
        .collect()
}

fn meta(id: &str, criada: u64, salva: bool) -> RecordingMeta {
    let nova = save(id.to_string(), criada, simples(1.0), "mic".to_string());
    if salva { mark_saved(nova) } else { nova }
}

#[test]
fn traduz_o_esquema_para_websocket() {
    assert_eq!(
        websocket_url("http://100.122.39.56:8010").unwrap(),
        "ws://100.122.39.56:8010/stt/stream"
    );
    assert_eq!(
        websocket_url("https://speech-api.lab.home/").unwrap(),
        "wss://speech-api.lab.home/stt/stream"
    );
}

#[test]
fn recusa_endereco_sem_esquema() {
    assert!(websocket_url("100.122.39.56:8010").is_err());
}

#[test]
fn parcial_substitui_em_vez_de_concatenar() {
    let mut vivo = LiveTranscript::new();
    vivo.apply_partial("bom".into());
    vivo.apply_partial("bom dia".into());
    vivo.apply_partial("bom dia vamos".into());
    // Se concatenasse, aqui estaria "bom bom dia bom dia vamos".
    assert_eq!(vivo.display_text(), "bom dia vamos");
}

#[test]
fn final_confirma_e_limpa_o_rascunho() {
    let mut vivo = LiveTranscript::new();
    vivo.apply_partial("bom dia vamo".into());
    vivo.apply_final("Bom dia, vamos falar.".into());
    assert_eq!(vivo.confirmed_text(), "Bom dia, vamos falar.");
    assert_eq!(vivo.display_text(), "Bom dia, vamos falar.");
}

#[test]
fn segmentos_confirmados_se_acumulam_com_espaco() {
    let mut vivo = LiveTranscript::new();
    vivo.apply_final("Primeira frase.".into());
    vivo.apply_final("Segunda frase.".into());
    assert_eq!(vivo.confirmed_text(), "Primeira frase. Segunda frase.");
}

#[test]
fn final_vazio_nao_polui_o_texto() {
    let mut vivo = LiveTranscript::new();
    vivo.apply_final("   ".into());
    assert_eq!(vivo.confirmed_text(), "");
}

#[test]
fn rascunho_aparece_depois_do_confirmado() {
    let mut vivo = LiveTranscript::new();
    vivo.apply_final("Primeira.".into());
    vivo.apply_partial("segunda em andamento".into());
    assert_eq!(vivo.display_text(), "Primeira. segunda em andamento");
    // Mas só o confirmado é colável.
    assert_eq!(vivo.confirmed_text(), "Primeira.");
}

#[test]
fn endereco_recusado_diz_qual() {
    assert_eq!(
        websocket_url("ftp://x/"),
        Err("endereço da API sem esquema http/https: ftp://x/".to_string())
    );
}

#[test]
fn credencial_vai_em_base64() {
    assert_eq!(authorization("Aladdin", "open sesame"), "Basic QWxhZGRpbjpvcGVuIHNlc2FtZQ==");
    assert_eq!(authorization("é", ""), "Basic w6k6");
    assert_eq!(basic_header("x"), "Basic x");
    let sem = build_request("ws://h", None);
    assert_eq!((sem.url.as_str(), sem.authorization), ("ws://h", None));
    let com = build_request("ws://h", Some(("a".to_string(), "b".to_string())));
    assert_eq!(com.authorization.as_deref(), Some("Basic YTpi"));
}

#[test]
fn sessao_ao_vivo_manda_e_recebe() {
    let mut sessao = SttStream::new();
    assert!(sessao.takes_commands());
    let saida = sessao.command(Some(Command::Audio(vec![1, -2])));
    assert!(matches!(saida, Outgoing::Audio(bytes) if bytes == [1, 0, 0xfe, 0xff]));
    let saida = sessao.command(Some(Command::Finish));
    assert!(matches!(saida, Outgoing::Text(texto) if texto == "{\"type\":\"eof\"}"));
    assert!(!sessao.takes_commands());

    let texto = |t: &str| t.to_string();
    for mensagem in [ServerMessage::Ready, ServerMessage::Unknown,
        ServerMessage::Partial(texto("ol")), ServerMessage::Final(texto(" olá ")),
        ServerMessage::Partial(texto("mun"))] {
        assert!(matches!(sessao.receive(Incoming::Message(mensagem)), Progress::Continue));
    }
    assert!(matches!(sessao.receive(Incoming::Other), Progress::Continue));
    assert_eq!(sessao.transcript.display_text(), "olá mun");
    assert_eq!(sessao.sending_failed(), "olá");
    assert!(matches!(sessao.receive(Incoming::Closed), Progress::Finished(t) if t == "olá"));
    assert!(matches!(sessao.receive(Incoming::Ended), Progress::Finished(t) if t == "olá"));
    let feito = sessao.receive(Incoming::Message(ServerMessage::Done(texto("olá mundo"))));
    assert!(matches!(feito, Progress::Finished(t) if t == "olá mundo"));
    let caiu = sessao.receive(Incoming::Broken(texto("reset")));
    assert!(matches!(caiu, Progress::Failed(t) if t == "conexão caiu: reset"));
    let erro = sessao.receive(Incoming::Message(ServerMessage::Error(texto("cheio"))));
    assert!(matches!(erro, Progress::Failed(t) if t == "a speech-api recusou o stream: cheio"));
}

#[test]
fn sem_dono_a_sessao_termina() {
    let mut sessao = SttStream::new();
    let saida = sessao.command(None);
    assert!(matches!(saida, Outgoing::Text(texto) if texto == eof_message()));
    assert!(!sessao.takes_commands());
}

#[test]
fn encerrar_fica_com_o_confirmado() {
    let mut sessao = SttStream::new();
    sessao.transcript.apply_final("a".into());
    sessao.transcript.apply_partial("b".into());
    assert_eq!(sessao.display_text(), "a b");
    assert_eq!(sessao.finish(Waited::AlreadyTaken), Ok("a".to_string()));
    assert_eq!(sessao.finish(Waited::TimedOut), Ok("a".to_string()));
    assert_eq!(sessao.finish(Waited::Ended(Ok("c".to_string()))), Ok("c".to_string()));
    assert_eq!(sessao.finish(Waited::Ended(Err("e".to_string()))), Err("e".to_string()));
}

#[test]
fn audio_vai_em_blocos_de_250_ms() {
    let amostras: Vec<i16> = (0..9000).map(|i| i as i16).collect();
    let sessao = SttStream::new();
    let blocos = sessao.push(&amostras);
    let tamanhos: Vec<usize> = blocos.iter().map(|b| b.len()).collect();
    assert_eq!(tamanhos, vec![4000, 4000, 1000]);
    assert_eq!(blocos.concat(), amostras);
    assert!(sessao.push(&[]).is_empty());
    assert_eq!(sessao.push(&amostras[..4000]).len(), 1);
}

#[test]
fn captura_guarda_niveis_e_fala() {
    let mut captura = Capture::new();
    for i in 0..330 {
        captura.push_sample(simples(0.01), if i == 200 { -500 } else { 3 });
    }
    assert_eq!(captura.envelope, vec![3, 500]);
    assert!(!captura.speech_detected);
    assert_eq!(captura.levels(4), vec![0, 0, 3, 500]);
    assert_eq!(captura.levels(1), vec![500]);
    assert!(captura.levels(0).is_empty());
    captura.push_sample(simples(0.06), 1);
    assert!(!captura.speech_detected);
    captura.push_sample(simples(0.07), i16::MIN);
    assert!(captura.speech_detected);
    assert_eq!(f32::from_bits(captura.peak.bits), 0.07);
}

#[test]
fn pedacos_da_captura_formam_o_todo() {
    let mut captura = Capture::new();
    let mut pedacos = Vec::new();
    for i in 0..10i16 {
        captura.push_sample(simples(0.0), i);
        if i % 4 == 0 {
            pedacos.extend(captura.drain_new_samples());
        }
    }
    pedacos.extend(captura.drain_new_samples());
    assert!(captura.drain_new_samples().is_empty());
    let gravacao = captura.finish("mic".to_string());
    assert_eq!(pedacos, gravacao.samples);
    assert_eq!(gravacao.device_name, "mic");
}

fn gravacao(amostras: Vec<i16>) -> Recording {
    Recording {
        samples: amostras,
        peak: simples(0.0),
        speech_detected: true,
        device_name: String::new(),
    }
}

#[test]
fn wav_com_cabecalho_exato() {
    let wav = gravacao(vec![1, -1, i16::MIN]).to_wav();
    let mut esperado: Vec<u8> = Vec::new();
    esperado.extend_from_slice(b"RIFF");
    esperado.extend_from_slice(&42u32.to_le_bytes());
    esperado.extend_from_slice(b"WAVEfmt ");
    esperado.extend_from_slice(&16u32.to_le_bytes());
    esperado.extend_from_slice(&1u16.to_le_bytes());
    esperado.extend_from_slice(&1u16.to_le_bytes());
    esperado.extend_from_slice(&16_000u32.to_le_bytes());
    esperado.extend_from_slice(&32_000u32.to_le_bytes());
    esperado.extend_from_slice(&2u16.to_le_bytes());
    esperado.extend_from_slice(&16u16.to_le_bytes());
    esperado.extend_from_slice(b"data");
    esperado.extend_from_slice(&6u32.to_le_bytes());
    for amostra in [1i16, -1, i16::MIN] {
        esperado.extend_from_slice(&amostra.to_le_bytes());
    }
    assert_eq!(wav, esperado);
    assert_eq!(bytes_of_samples(&[258, -2]), vec![2, 1, 254, 255]);
}

#[test]
fn menos_de_um_quarto_de_segundo_e_curto() {
    for tamanho in [0usize, 3999, 4000, 4001] {
        let curta = (tamanho as f32 / 16_000.0) < 0.25;
        assert_eq!(gravacao(vec![0; tamanho]).too_short(), curta);
    }
}

#[test]
fn microfone_escolhido_ou_o_do_sistema() {
    let nomes = vec![Some("a".to_string()), None, Some("b".to_string()), Some("b".to_string())];
    assert_eq!(choose_device(Some("b"), &nomes, true), DeviceChoice::Listed(2));
    assert_eq!(choose_device(Some("x"), &nomes, true), DeviceChoice::SystemDefault);
    assert_eq!(choose_device(None, &nomes, true), DeviceChoice::SystemDefault);
    assert_eq!(choose_device(Some("x"), &nomes, false), DeviceChoice::Unavailable);
    let lista = list_input_devices(&nomes, &Some("b".to_string()));
    let vistos: Vec<(&str, bool)> = lista.iter().map(|d| (d.id.as_str(), d.is_default)).collect();
    assert_eq!(vistos, vec![("a", false), ("b", true), ("b", true)]);
    assert_eq!(source_description("Mic", 48_000, 2), "Mic (48000 Hz, 2 ch)");
}

#[test]
fn som_antes_do_microfone() {
    let mut sessao = Dictation::new();
    assert_eq!(
        sessao.start(false, true, false),
        vec![
            StartStep::Play(Cue::DictationStart),
            StartStep::OpenMicrophone,
            StartStep::ShowHud { push_to_talk: false },
            StartStep::ShowLiveWindow(false),
            StartStep::Prewarm,
            StartStep::LiveTranscription,
        ]
    );
    assert_eq!(sessao.start(true, false, true).len(), 5);
    assert_eq!(sessao.toggle(), Toggle::Start);
    assert!(!sessao.live_connected());
    sessao.recording(false);
    assert!(sessao.start(false, true, true).is_empty());
    assert_eq!(sessao.toggle(), Toggle::StopAndDeliver);
    assert!(sessao.live_connected());
    let batida = sessao.live_beat(3, "olá");
    assert!(batida.push && !batida.stop && batida.publish);
    assert_eq!(sessao.stop_recording(), Some(true));
    assert_eq!(sessao.stop_recording(), None);
    assert_eq!(sessao.session.phase(), Phase::Transcribing);
    let batida = sessao.live_beat(0, "olá");
    assert!(!batida.push && batida.stop && !batida.publish);
    assert_eq!(sessao.session.bar_count(), 37);
    assert_eq!(
        sessao.cancel(),
        vec![CancelStep::AbortStream, CancelStep::HideHud, CancelStep::HideLiveWindow]
    );
    assert_eq!(sessao.session.phase().name(), "idle");
    assert_eq!(sessao.cancel(), vec![CancelStep::HideHud, CancelStep::HideLiveWindow]);
}

#[test]
fn onda_e_texto_da_sessao() {
    let sessao = DictationSession::new();
    assert_eq!(sessao.levels(None), vec![0; 37]);
    let mut captura = Capture::new();
    for _ in 0..160 {
        captura.push_sample(simples(0.5), 900);
    }
    let niveis = sessao.levels(Some(&captura));
    assert_eq!((niveis.len(), niveis[35], niveis[36]), (37, 0, 900));
    assert_eq!(sessao.live_text(None), "");
    let mut vivo = LiveTranscript::new();
    vivo.apply_partial("oi".to_string());
    assert_eq!(sessao.live_text(Some(&vivo)), "oi");
}

#[test]
fn gravacao_curta_nao_e_fala() {
    for (tamanho, fala) in [(3999, false), (4000, true)] {
        let (entrega, _) =
            Delivery::new(preferencias(), String::new(), &gravacao(vec![0; tamanho]), false, None);
        assert_eq!(entrega.speech, fala);
    }
}

#[test]
fn colado_e_enviado_uma_vez_so() {
    let (entrega, _) = entrega(preferencias(), true, false).deliver(Event::Saved);
    let (entrega, _) = entrega.deliver(Event::Transcribed(Ok("assim".to_string())));
    let (entrega, efeitos) = entrega.deliver(Event::Transcribed(Ok("de novo".to_string())));
    assert!(efeitos.is_empty());
    let (entrega, _) = entrega.deliver(Event::Delivered(true));
    let (_, efeitos) = entrega.deliver(Event::Saved);
    assert!(efeitos.is_empty());
}

#[test]
fn silencio_nao_e_enviado() {
    let (fim, efeitos) = entrega(preferencias(), false, true).deliver(Event::Saved);
    assert_eq!(
        resumo(&efeitos),
        vec![
            "nota sem_fala None None",
            "Reset",
            "avisa warning Some(\"Nenhuma fala detectada\") None",
            "toca DictationFailure",
        ]
    );
    assert!(matches!(fim.stage, Stage::Finished(Ok(texto)) if texto.is_empty()));
}

#[test]
fn ditado_do_comeco_ao_fim() {
    let (entrega, efeitos) = entrega(preferencias(), true, true).deliver(Event::Saved);
    assert_eq!(resumo(&efeitos), vec!["CloseStream"]);
    let (entrega, efeitos) = entrega.deliver(fechado(Ok("ao vivo".to_string())));
    assert_eq!(resumo(&efeitos), vec!["Transcribe"]);
    let (entrega, efeitos) =
        entrega.deliver(Event::Transcribed(Ok(" Então fui. Manda ver! ".to_string())));
    assert_eq!(
        resumo(&efeitos),
        vec![
            "nota transcrito Some(\"Então fui. Manda ver!\") None",
            "cola \" então fui.\" Some(Enter)",
        ]
    );
    let (entrega, efeitos) = entrega.deliver(Event::Delivered(true));
    assert_eq!(
        resumo(&efeitos),
        vec!["Reset", "avisa success Some(\"Colado\") None", "toca DictationSuccess"]
    );
    assert!(matches!(entrega.stage, Stage::Finished(Ok(texto)) if texto == " então fui."));
}

#[test]
fn lote_que_falha_usa_o_texto_ao_vivo() {
    let (entrega, _) = entrega(preferencias(), true, true).deliver(Event::Saved);
    // O streaming fechou mal: vale o que ele tinha mostrado.
    let (entrega, _) = entrega.deliver(fechado(Err("caiu".to_string())));
    let (_, efeitos) = entrega.deliver(Event::Transcribed(Err("sem rede".to_string())));
    assert_eq!(
        resumo(&efeitos),
        vec![
            "nota falhou None Some(\"sem rede\")",
            "avisa warning Some(\"Texto parcial\") Some(\"A transcrição final falhou; este veio do reconhecimento ao vivo.\")",
            "cola \" ficou isto\" None",
        ]
    );
}

#[test]
fn lote_que_falha_sem_reserva_e_erro() {
    let (entrega, efeitos) = entrega(preferencias(), true, false).deliver(Event::Saved);
    assert_eq!(resumo(&efeitos), vec!["Transcribe"]);
    let (fim, efeitos) = entrega.deliver(Event::Transcribed(Err("sem rede".to_string())));
    assert_eq!(
        resumo(&efeitos),
        vec![
            "nota falhou None Some(\"sem rede\")",
            "Reset",
            "avisa error Some(\"Transcrição falhou\") Some(\"Tente de novo\")",
            "toca DictationFailure",
        ]
    );
    assert!(matches!(fim.stage, Stage::Finished(Err(motivo)) if motivo == "sem rede"));
}

#[test]
fn transcricao_vazia_termina_sem_texto() {
    let (entrega, _) = entrega(preferencias(), true, false).deliver(Event::Saved);
    let (fim, efeitos) = entrega.deliver(Event::Transcribed(Ok("  ".to_string())));
    assert_eq!(resumo(&efeitos)[0], "nota vazio None None");
    assert!(matches!(fim.stage, Stage::Finished(Ok(texto)) if texto.is_empty()));
}

#[test]
fn reescrita_vem_depois_da_palavra_chave() {
    let prefs = DeliveryPrefs {
        rewrite: true,
        output_action: OutputAction::Clipboard,
        ..preferencias()
    };
    let (entrega, _) = entrega(prefs, true, false).deliver(Event::Saved);
    let (entrega, efeitos) =
        entrega.deliver(Event::Transcribed(Ok("é tipo assim manda ver".to_string())));
    assert_eq!(
        resumo(&efeitos)[1..],
        [
            "avisa rewriting Some(\"Ajustando\") None".to_string(),
            "reescreve \"é tipo assim\"".to_string(),
        ]
    );
    let reescrito = RewriteResult {
        text: "assim".to_string(),
        rewritten: RewriteReport { applied: true, elapsed_ms: 1, error: None, skipped: None },
    };
    let (entrega, efeitos) = entrega.deliver(Event::Rewritten(Some(reescrito)));
    assert_eq!(resumo(&efeitos), vec!["copia \" assim\""]);
    let (_, efeitos) = entrega.deliver(Event::Delivered(true));
    assert_eq!(resumo(&efeitos)[1], "avisa success Some(\"Copiado\") None");
}

#[test]
fn reescrita_que_falha_entrega_o_ditado() {
    let prefs = DeliveryPrefs { rewrite: true, ..preferencias() };
    let (entrega, _) = entrega(prefs, true, false).deliver(Event::Saved);
    let (entrega, _) = entrega.deliver(Event::Transcribed(Ok("assim".to_string())));
    let (_, efeitos) = entrega.deliver(Event::Rewritten(None));
    assert_eq!(resumo(&efeitos), vec!["cola \" assim\" None"]);
}

#[test]
fn colagem_que_falha_nao_perde_o_texto() {
    for (salvou, aviso) in [
        (true, "avisa warning Some(\"Transcrição copiada\") Some(\"Não deu para colar no app ativo.\")"),
        (false, "avisa error Some(\"Falha ao entregar o texto\") None"),
    ] {
        let (entrega, _) = entrega(preferencias(), true, false).deliver(Event::Saved);
        let (entrega, _) = entrega.deliver(Event::Transcribed(Ok("assim".to_string())));
        let (entrega, efeitos) = entrega.deliver(Event::Delivered(false));
        assert_eq!(resumo(&efeitos), vec!["Reset", "copia \" assim\""]);
        let (fim, efeitos) = entrega.deliver(Event::Rescued(salvou));
        assert_eq!(resumo(&efeitos), vec![aviso, "toca DictationFailure"]);
        assert!(matches!(fim.stage, Stage::Finished(Ok(texto)) if texto == " assim"));
    }
}

#[test]
fn evento_fora_de_hora_nao_muda_nada() {
    let (entrega, efeitos) = entrega(preferencias(), true, false).deliver(Event::Delivered(true));
    assert!(efeitos.is_empty());
    assert!(matches!(entrega.stage, Stage::Saving));
}

#[test]
fn gravacao_expira_em_um_dia_se_ninguem_salvou() {
    let agora = 10 * EXPIRACAO;
    let lista = list(
        vec![
            meta("velha", agora - EXPIRACAO - 1, false),
            meta("no limite", agora - EXPIRACAO, false),
            meta("salva", 0, true),
            meta("nova", agora, false),
            meta("do futuro", agora + 5, false),
        ],
        agora,
    );
    let ids: Vec<&str> = lista.kept.iter().map(|m| m.id.as_str()).collect();
    assert_eq!(ids, vec!["do futuro", "nova", "no limite", "salva"]);
    assert_eq!(lista.expired.len(), 1);
    assert_eq!(lista.expired[0].id, "velha");
}

#[test]
fn gravacoes_da_mesma_hora_ficam_na_ordem() {
    let lista = list(
        vec![meta("a", 5, false), meta("b", 7, false), meta("c", 5, false), meta("d", 7, false)],
        10,
    );
    let ids: Vec<&str> = lista.kept.iter().map(|m| m.id.as_str()).collect();
    assert_eq!(ids, vec!["b", "d", "a", "c"]);
}

#[test]
fn resultado_da_gravacao() {
    let nova = meta("x", 1, false);
    assert_eq!(nova.status, Status::Pendente);
    let (status, texto, erro) = retry(Ok(" oi ".to_string()));
    let anotada = set_result(nova, status, texto, erro);
    assert_eq!(anotada.status, Status::Transcrito);
    assert_eq!(anotada.text.as_deref(), Some("oi"));
    assert!(!anotada.saved);
    assert!(mark_saved(anotada).saved);
    assert_eq!(retry(Ok(" ".to_string())), (Status::Vazio, None, None));
    assert_eq!(
        retry(Err("e".to_string())),
        (Status::Falhou, None, Some("e".to_string()))
    );
    assert_eq!(Status::SemFala.name(), "sem_fala");
}

#[test]
fn arquivos_da_gravacao() {
    assert_eq!(novo_id(0x18f, 10), "18f-a");
    assert_eq!(caminho_wav("18f-a"), "18f-a.wav");
    assert_eq!(caminho_meta("18f-a"), "18f-a.json");
    assert_eq!(dir("/c/settings.json"), "/c/recordings");
}

#[test]
fn gravacoes_nao_repetem_o_nome() {
    let horas = [0u64, 1, 0x18, 0x18f, u64::MAX];
    let sequencias = [0u32, 1, 0xf0, 0xf, u32::MAX];
    let mut nomes: Vec<String> = Vec::new();
    for hora in horas {
        for sequencia in sequencias {
            nomes.push(novo_id(hora, sequencia));
        }
    }
    let total = nomes.len();
    nomes.sort();
    nomes.dedup();
    assert_eq!(nomes.len(), total);
}

#[test]
fn todo_o_som_gravado_e_enviado() {
    let amostras: Vec<i16> = (0..9001).map(|i| (i * 7 - 20000) as i16).collect();
    let mut sessao = SttStream::new();
    let mut enviado: Vec<u8> = Vec::new();
    for bloco in sessao.push(&amostras) {
        match sessao.command(Some(Command::Audio(bloco))) {
            Outgoing::Audio(bytes) => enviado.extend(bytes),
            outra => panic!("{outra:?}"),
        }
    }
    assert_eq!(enviado, bytes_of_samples(&amostras));
}

#[test]
fn o_som_e_declarado_antes_de_ser_enviado() {
    let login = Some(("u".to_string(), "p".to_string()));
    let aberta = SttStream::connect("https://host:8010/", login).unwrap();
    assert_eq!(aberta.request.url, "wss://host:8010/stt/stream");
    assert_eq!(aberta.request.authorization.as_deref(), Some("Basic dTpw"));
    let esperada = "{\"sample_rate\":16000,\"type\":\"config\",\"words\":false}";
    assert!(matches!(aberta.first, Outgoing::Text(texto) if texto == esperada));
    assert_eq!(config_message(), esperada);
    assert!(aberta.session.takes_commands());
    assert_eq!(aberta.session.display_text(), "");

    let recusada = SttStream::connect("host:8010", None);
    assert!(matches!(recusada, Err(motivo) if motivo.ends_with("http/https: host:8010")));
}
