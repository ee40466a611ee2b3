use vox::float::Single;
use vox::hud::{HudRole, HudShape};
use vox::reading::{
    data_url, enough_sample, motivo_legivel, Effect, Loaded, Next,
    OpeningStep, Queue, Reader, ReadingPrefs, ReadingState, Sample, Segment,
};
use vox::sounds::{Cue, Sound, SoundBank};

fn segundos(valor: f32) -> Single {
    Single { bits: valor.to_bits() }
}

fn soma(partes: Vec<Single>) -> f32 {
    partes.iter().map(|parte| f32::from_bits(parte.bits)).sum()
}

fn queue_with(segments: &[(f32, bool)]) -> Queue {
    Queue {
        segments: segments
            .iter()
            .map(|(seconds, ready)| Segment {
                text: "x".repeat(180),
                audio: if *ready { Some(vec![0u8; 8]) } else { None },
                seconds: segundos(*seconds),
            })
            .collect(),
        cursor: 0,
        state: ReadingState::Playing,
        generation: 1,
        samples: Vec::new(),
    }
}

fn prefs() -> ReadingPrefs {
    ReadingPrefs {
        open_reader_on_read: false,
        reading_captions: false,
        normalize_before_reading: true,
        narrate_tables: false,
    }
}

#[test]
fn buffered_conta_so_o_que_esta_pronto_e_a_frente() {
    let mut queue = queue_with(&[(3.0, true), (4.0, true), (5.0, false)]);
    assert_eq!(soma(queue.buffered()), 7.0);
    queue.cursor = 1;
    assert_eq!(soma(queue.buffered()), 4.0);
}

#[test]
fn estimativa_cresce_com_o_texto() {
    let curto = queue_with(&[(0.0, false)]);
    let longo = queue_with(&[(0.0, false), (0.0, false)]);
    assert!(longo.remaining_chars() > curto.remaining_chars());
    assert_eq!(longo.remaining_chars(), 360);
}

#[test]
fn fila_vazia_nao_tem_dianteira() {
    let queue = Queue::new();
    assert_eq!(soma(queue.buffered()), 0.0);
    assert_eq!(queue.state(), ReadingState::Idle);
}

#[test]
fn meio_segundo_ja_e_amostra() {
    assert!(!enough_sample(segundos(0.0)));
    assert!(!enough_sample(segundos(0.49)));
    assert!(enough_sample(segundos(0.5)));
}

#[test]
fn o_estado_vai_antes_da_janela() {
    let mut reader = Reader::new();
    let (_, passos) = reader.speak(prefs());
    assert_eq!(
        passos,
        vec![
            OpeningStep::Emit(ReadingState::Generating),
            OpeningStep::Shape(HudShape::Column),
            OpeningStep::Reveal,
            OpeningStep::Prepare { normalize: true, narrate_tables: false },
        ]
    );
    let com_tudo = ReadingPrefs { open_reader_on_read: true, reading_captions: true, ..prefs() };
    let (_, passos) = reader.speak_prepared(com_tudo);
    assert_eq!(
        passos,
        vec![
            OpeningStep::Emit(ReadingState::Generating),
            OpeningStep::Shape(HudShape::ColumnCaptions),
            OpeningStep::Reveal,
            OpeningStep::RaiseReader,
        ]
    );
}

#[test]
fn leitura_do_comeco_ao_fim() {
    let mut reader = Reader::new();
    let (mut sessao, _) = reader.speak(prefs());
    let frases = format!("{}. {}.", "a".repeat(60), "b".repeat(60));
    match reader.load(&sessao, &frases) {
        Loaded::Plan(trechos) => assert_eq!(trechos.len(), 2),
        outro => panic!("{outro:?}"),
    }

    assert!(matches!(reader.next_chunk(&sessao), Next::Synthesize(texto) if texto.starts_with('a')));
    assert!(reader.push_audio_to_front(0).is_none());
    assert!(reader.store(&sessao, b"oi".to_vec(), segundos(2.0), segundos(3.0), false));
    // Pronto menos que o exigido: ainda não toca.
    let passo = reader.advance(&mut sessao, segundos(2.0), segundos(5.0));
    assert!(!passo.start && passo.more);
    assert_eq!(reader.state(), ReadingState::Generating);
    let mensagem = reader.push_audio_to_front(0).unwrap();
    assert_eq!(mensagem.audio, "data:audio/mpeg;base64,b2k=");
    assert_eq!((mensagem.index, mensagem.total), (0, 2));
    assert!(mensagem.text.starts_with('a'));

    assert!(matches!(reader.next_chunk(&sessao), Next::Synthesize(texto) if texto.starts_with('b')));
    assert!(reader.store(&sessao, vec![1], segundos(1.0), segundos(1.0), true));
    // O último trecho toca com o que houver.
    let passo = reader.advance(&mut sessao, segundos(3.0), segundos(5.0));
    assert!(passo.start && !passo.more);
    assert_eq!(reader.state(), ReadingState::Playing);
    assert!(matches!(reader.next_chunk(&sessao), Next::Finished));
    // O que veio do cache não entra na medida.
    assert_eq!(
        reader.queue.samples,
        vec![Sample { spent: segundos(3.0), audio: segundos(2.0) }]
    );
}

#[test]
fn dianteira_suficiente_comeca_a_tocar_uma_vez() {
    let mut reader = Reader::new();
    let (mut sessao, _) = reader.speak(prefs());
    let frases = format!("{}. {}. {}.", "a".repeat(80), "b".repeat(200), "c".repeat(200));
    reader.load(&sessao, &frases);
    reader.store(&sessao, vec![1], segundos(5.0), segundos(1.0), false);
    assert!(reader.advance(&mut sessao, segundos(5.0), segundos(5.0)).start);
    reader.store(&sessao, vec![1], segundos(5.0), segundos(1.0), false);
    assert!(!reader.advance(&mut sessao, segundos(9.0), segundos(5.0)).start);
}

#[test]
fn parar_descarta_o_que_esta_a_caminho() {
    let mut reader = Reader::new();
    let (sessao, _) = reader.speak(prefs());
    reader.load(&sessao, "Um texto.");
    assert_eq!(
        reader.stop(),
        vec![Effect::HideHud(HudRole::Reading), Effect::Emit(ReadingState::Idle)]
    );
    assert!(matches!(reader.next_chunk(&sessao), Next::Discarded));
    assert!(!reader.store(&sessao, vec![1], segundos(1.0), segundos(1.0), false));
    assert!(reader.fail(&sessao, &vec!["x".to_string()]).is_none());
    assert!(matches!(reader.load(&sessao, "Outro."), Loaded::Discarded));
    assert_eq!(reader.state(), ReadingState::Idle);
    assert!(reader.queue.segments.is_empty());
    // Depois de parada, o que o player ainda avisa não a ressuscita.
    assert!(reader.sync_state(ReadingState::Paused).is_empty());
    assert_eq!(reader.state(), ReadingState::Idle);
}

#[test]
fn leitura_nova_mede_de_novo() {
    let mut reader = Reader::new();
    let (sessao, _) = reader.speak(prefs());
    reader.load(&sessao, "Um texto.");
    reader.store(&sessao, vec![1], segundos(1.0), segundos(1.0), false);
    assert_eq!(reader.queue.samples.len(), 1);
    let (nova, _) = reader.speak(prefs());
    assert!(reader.queue.samples.is_empty());
    assert!(nova.generation > sessao.generation);
}

#[test]
fn texto_sem_nada_nao_vira_leitura() {
    let mut reader = Reader::new();
    let (sessao, _) = reader.speak(prefs());
    assert!(matches!(reader.load(&sessao, " \n "), Loaded::Nothing));
    assert!(matches!(reader.next_chunk(&sessao), Next::Finished));
}

#[test]
fn sintese_que_falha_diz_o_motivo() {
    let mut reader = Reader::new();
    let (sessao, _) = reader.speak(prefs());
    reader.load(&sessao, "Um texto.");
    let causas = vec!["pedir síntese".to_string(), "a speech-api respondeu 400".to_string()];
    let aviso = reader.fail(&sessao, &causas).unwrap();
    assert_eq!(aviso.cue, Cue::SpeakError);
    assert_eq!(aviso.state, ReadingState::Failed);
    assert_eq!(aviso.message, "a speech-api respondeu 400");
    assert_eq!(reader.state(), ReadingState::Failed);
}

#[test]
fn motivo_longo_e_cortado() {
    assert_eq!(motivo_legivel(&vec!["é".repeat(140)]), "é".repeat(140));
    let longo = motivo_legivel(&vec!["curto".to_string(), "é".repeat(141)]);
    assert_eq!(longo, format!("{}…", "é".repeat(139)));
}

#[test]
fn pausar_e_retomar() {
    let mut reader = Reader::new();
    assert!(reader.pause().is_empty());
    assert!(reader.resume().is_empty());
    reader.queue = queue_with(&[(1.0, true)]);
    assert_eq!(
        reader.pause(),
        vec![Effect::Play(Cue::SpeakPause), Effect::Emit(ReadingState::Paused)]
    );
    assert!(reader.pause().is_empty());
    assert_eq!(reader.resume(), vec![Effect::Emit(ReadingState::Playing)]);
    assert_eq!(reader.state(), ReadingState::Playing);
    assert_eq!(
        reader.finished(),
        vec![Effect::Play(Cue::SpeakComplete), Effect::Emit(ReadingState::Complete)]
    );
}

#[test]
fn estado_que_veio_do_player() {
    let mut reader = Reader::new();
    reader.queue = queue_with(&[(1.0, true)]);
    assert!(reader.sync_state(ReadingState::Playing).is_empty());
    assert_eq!(reader.sync_state(ReadingState::Paused), vec![Effect::Play(Cue::SpeakPause)]);
    assert!(reader.sync_state(ReadingState::Paused).is_empty());
    assert!(reader.sync_state(ReadingState::Playing).is_empty());
    assert_eq!(reader.state(), ReadingState::Playing);
}

#[test]
fn cursor_so_anda_dentro_da_fila() {
    let mut reader = Reader::new();
    reader.queue = queue_with(&[(1.0, true), (1.0, true)]);
    reader.set_cursor(1);
    assert_eq!(reader.queue.cursor, 1);
    reader.set_cursor(2);
    assert_eq!(reader.queue.cursor, 1);
}

#[test]
fn nomes_dos_estados_vao_e_voltam() {
    for estado in [ReadingState::Idle, ReadingState::Generating, ReadingState::Playing,
        ReadingState::Paused, ReadingState::Complete, ReadingState::Failed] {
        assert_eq!(ReadingState::from_name(estado.name()), Some(estado));
    }
    assert_eq!(ReadingState::from_name("outro"), None);
}

#[test]
fn preparo_vazio_ou_falho_fica_com_o_original() {
    assert_eq!(Reader::prepare("a", Some("b".to_string())), "b");
    assert_eq!(Reader::prepare("a", Some(" ".to_string())), "a");
    assert_eq!(Reader::prepare("a", None), "a");
    assert_eq!(data_url("eA=="), "data:audio/mpeg;base64,eA==");
}

#[test]
fn todo_evento_tem_som() {
    let mut banco = SoundBank::new();
    for cue in [Cue::DictationStart, Cue::DictationSuccess, Cue::DictationFailure,
        Cue::SpeakStart, Cue::SpeakComplete, Cue::SpeakPause, Cue::SpeakError] {
        assert!(banco.play(cue).is_some());
    }
    assert!(matches!(banco.play(Cue::DictationFailure), Some(Sound::Embedded("speak-error.wav"))));
    assert!(matches!(banco.play(Cue::SpeakPause), Some(Sound::Embedded("speak-pause.wav"))));
    let arquivos = vec![
        (Cue::DictationStart, None),
        (Cue::DictationSuccess, Some(vec![7u8])),
        (Cue::DictationFailure, None),
    ];
    assert_eq!(banco.load_external_dictation_sounds(arquivos), 1);
    assert!(matches!(banco.play(Cue::DictationSuccess), Some(Sound::External(b)) if b == [7]));
    assert!(matches!(banco.play(Cue::DictationStart), Some(Sound::Embedded("speak-start.wav"))));
    banco.set_enabled(false);
    assert!(banco.play(Cue::SpeakError).is_none());
}

#[test]
fn sons_de_ditado_tem_nome_de_arquivo() {
    let nomes: Vec<Option<&str>> =
        SoundBank::external_cues().iter().map(|cue| cue.external_name()).collect();
    assert_eq!(
        nomes,
        vec![Some("modern-start.aif"), Some("modern-success.aif"), Some("modern-failure.aif")]
    );
    assert_eq!(Cue::SpeakStart.external_name(), None);
    assert_eq!(Cue::SpeakStart.fallback(), None);
    assert_eq!(Cue::DictationStart.fallback(), Some(Cue::SpeakStart));
    assert_eq!(Cue::DictationStart.embedded(), None);
}
