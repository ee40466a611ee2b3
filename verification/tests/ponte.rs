use vox::bridge::{
    aceitar_leitura, atender, encontrar, ler_cabecalho, origem_permitida, responder,
    resposta_de_leitura, resposta_de_leitura_dada, resposta_de_parada, resposta_de_progresso,
    BridgeState, FalhaDeLeitura, Leitura, LeitorDeRequisicao, Passo, Requisicao, MAX_CORPO,
};
use vox::float::Single;

const EXTENSAO: &str = "chrome-extension://abcdefghijklmnop";

fn razao(valor: f32) -> Single {
    Single { bits: valor.to_bits() }
}

fn pedido(metodo: &str, caminho: &str, origem: Option<&str>, token: Option<&str>) -> Requisicao {
    Requisicao {
        metodo: metodo.to_string(),
        caminho: caminho.to_string(),
        origem: origem.map(|o| o.to_string()),
        token: token.map(|t| t.to_string()),
        corpo: b"corpo".to_vec(),
    }
}

fn resposta(passo: Passo) -> (u16, String, Option<String>) {
    match passo {
        Passo::Responder(resposta) => (resposta.codigo, resposta.corpo, resposta.origem),
        outro => panic!("esperava uma resposta, veio {outro:?}"),
    }
}

#[test]
fn so_extensao_passa_na_origem() {
    assert!(origem_permitida(Some("chrome-extension://abcdefghijklmnop")));
    assert!(!origem_permitida(Some("https://exemplo.com")));
    assert!(!origem_permitida(Some("http://127.0.0.1:8765")));
    assert!(!origem_permitida(None));
}

#[test]
fn resposta_ecoa_a_origem_e_nunca_curinga() {
    let origem = "chrome-extension://abc";
    let saida = responder(200, "{}", Some(origem));
    assert!(saida.contains(&format!("Access-Control-Allow-Origin: {origem}")));
    assert!(!saida.contains("Allow-Origin: *"));
}

#[test]
fn sem_origem_nao_ha_cabecalho_de_cors() {
    let saida = responder(403, "{}", None);
    assert!(!saida.contains("Access-Control-Allow-Origin"));
}

#[test]
fn encontra_o_fim_dos_cabecalhos() {
    assert_eq!(encontrar(b"GET / HTTP/1.1\r\n\r\nX", b"\r\n\r\n"), Some(14));
    assert_eq!(encontrar(b"sem separador", b"\r\n\r\n"), None);
}

#[test]
fn progresso_fica_entre_zero_e_um() {
    let mut estado = BridgeState::new();
    estado.set_progress(3, razao(2.5));
    assert_eq!(f32::from_bits(estado.snapshot().0.ratio.bits), 1.0);
    estado.set_progress(3, razao(-1.0));
    assert_eq!(f32::from_bits(estado.snapshot().0.ratio.bits), 0.0);
}

#[test]
fn encontra_no_fim_e_mais_curto_que_o_padrao() {
    assert_eq!(encontrar(b"ab", b"abc"), None);
    assert_eq!(encontrar(b"xabc", b"abc"), Some(1));
    assert_eq!(encontrar(b"abcabc", b"abc"), Some(0));
}

#[test]
fn resposta_inteira_como_vai_na_conexao() {
    assert_eq!(
        responder(404, "{\"a\":\"é\"}", None),
        "HTTP/1.1 404 Not Found\r\nContent-Type: application/json; charset=utf-8\r\n\
         Content-Length: 10\r\nConnection: close\r\n\r\n{\"a\":\"é\"}"
    );
    assert_eq!(
        responder(204, "", Some("chrome-extension://x")),
        "HTTP/1.1 204 No Content\r\nContent-Type: application/json; charset=utf-8\r\n\
         Content-Length: 0\r\nAccess-Control-Allow-Origin: chrome-extension://x\r\n\
         Access-Control-Allow-Methods: GET, POST, OPTIONS\r\n\
         Access-Control-Allow-Headers: Content-Type, X-Vox-Token\r\n\
         Access-Control-Max-Age: 600\r\nConnection: close\r\n\r\n"
    );
    for (codigo, motivo) in [(200, "OK"), (400, "Bad Request"), (401, "Unauthorized"),
        (403, "Forbidden"), (500, "Error")] {
        assert!(responder(codigo, "", None).starts_with(&format!("HTTP/1.1 {codigo} {motivo}\r\n")));
    }
}

#[test]
fn origem_estranha_nao_age() {
    for metodo in ["GET", "POST"] {
        for caminho in ["/read", "/stop", "/progress", "/health", "/x"] {
            let passo = atender(pedido(metodo, caminho, Some("https://x.com"), Some("t")), "t");
            let (codigo, corpo, origem) = resposta(passo);
            assert_eq!(codigo, 403);
            assert_eq!(corpo, "{\"error\":\"origem nao permitida\"}");
            assert_eq!(origem, None);
        }
    }
    let (codigo, corpo, origem) = resposta(atender(pedido("OPTIONS", "/read", None, None), "t"));
    assert_eq!((codigo, corpo.as_str(), origem), (403, "", None));
}

#[test]
fn token_errado_nao_age() {
    for token in [None, Some("outro")] {
        let passo = atender(pedido("POST", "/read", Some(EXTENSAO), token), "t");
        let (codigo, corpo, origem) = resposta(passo);
        assert_eq!(codigo, 401);
        assert_eq!(corpo, "{\"error\":\"token invalido\"}");
        assert_eq!(origem.as_deref(), Some(EXTENSAO));
    }
}

#[test]
fn preflight_passa_sem_token() {
    let (codigo, corpo, origem) =
        resposta(atender(pedido("OPTIONS", "/read", Some(EXTENSAO), None), "t"));
    assert_eq!((codigo, corpo.as_str()), (204, ""));
    assert_eq!(origem.as_deref(), Some(EXTENSAO));
}

#[test]
fn rotas_da_extensao() {
    let rota = |metodo: &str, caminho: &str| {
        atender(pedido(metodo, caminho, Some(EXTENSAO), Some("t")), "t")
    };
    assert!(matches!(rota("POST", "/read"), Passo::Ler { corpo, .. } if corpo == b"corpo"));
    assert!(matches!(rota("POST", "/stop"), Passo::Parar { origem } if origem == EXTENSAO));
    assert!(matches!(rota("GET", "/progress"), Passo::Progresso { .. }));
    assert_eq!(resposta(rota("GET", "/health")).1, "{\"ok\":true,\"app\":\"vox\"}");
    assert_eq!(resposta(rota("GET", "/read")).0, 404);
    assert_eq!(resposta(rota("POST", "/health")).1, "{\"error\":\"rota desconhecida\"}");
    assert_eq!(resposta_de_parada("o".to_string()).corpo, "{\"ok\":true}");
}

#[test]
fn leitura_recusa_vazio_e_json_invalido() {
    let origem = || "o".to_string();
    assert_eq!(aceitar_leitura(Ok("oi".to_string()), origem()).ok().as_deref(), Some("oi"));
    let vazio = aceitar_leitura(Ok(" \n".to_string()), origem()).err().unwrap();
    assert_eq!((vazio.codigo, vazio.corpo.as_str()), (400, "{\"error\":\"texto vazio\"}"));
    let ruim = aceitar_leitura(Err("eof".to_string()), origem()).err().unwrap();
    assert_eq!(ruim.corpo, "{\"error\":\"json invalido: eof\"}");
    assert_eq!(ruim.origem.as_deref(), Some("o"));
}

#[test]
fn cabecalho_com_campos_em_qualquer_caixa() {
    let lido = ler_cabecalho(
        "POST /read HTTP/1.1\r\nORIGIN:  chrome-extension://a \r\nx-vox-TOKEN: s3\r\n\
         Content-Length: 12\r\nsem dois pontos\r\n\r\n",
    );
    assert_eq!(lido.metodo, "POST");
    assert_eq!(lido.caminho, "/read");
    assert_eq!(lido.origem.as_deref(), Some("chrome-extension://a"));
    assert_eq!(lido.token.as_deref(), Some("s3"));
    assert_eq!(lido.tamanho, 12);
}

#[test]
fn cabecalho_vazio_e_repetido() {
    let vazio = ler_cabecalho("");
    assert_eq!((vazio.metodo.as_str(), vazio.caminho.as_str()), ("", ""));
    assert_eq!(vazio.tamanho, 0);
    let repetido = ler_cabecalho("GET /\r\nOrigin: a\r\nOrigin: b\r\nContent-Length: x\r\n");
    assert_eq!(repetido.origem.as_deref(), Some("b"));
    assert_eq!(repetido.tamanho, 0);
}

#[test]
fn requisicao_em_pedacos() {
    let inteira: &[u8] =
        b"POST /read HTTP/1.1\r\nContent-Length: 5\r\nX-Vox-Token: t\r\n\r\nol\xc3\xa1!sobra";
    let mut leitor = LeitorDeRequisicao::new();
    for pedaco in inteira.chunks(7) {
        if let Leitura::Pronta(lida) = leitor.ler_requisicao(false) {
            assert_eq!(lida.corpo, "olá!".as_bytes());
        }
        leitor.receber(pedaco);
    }
    match leitor.ler_requisicao(false) {
        Leitura::Pronta(lida) => {
            assert_eq!(lida.metodo, "POST");
            assert_eq!(lida.token.as_deref(), Some("t"));
            assert_eq!(lida.corpo, "olá!".as_bytes());
        }
        outra => panic!("{outra:?}"),
    }
}

#[test]
fn requisicao_com_bytes_que_nao_sao_utf8() {
    let mut leitor = LeitorDeRequisicao::new();
    leitor.receber(b"GET /\xff HTTP/1.1\r\n\r\n");
    match leitor.ler_requisicao(false) {
        Leitura::Pronta(lida) => assert_eq!(lida.caminho, "/\u{fffd}"),
        outra => panic!("{outra:?}"),
    }
}

#[test]
fn requisicao_que_nao_se_completa() {
    let mut leitor = LeitorDeRequisicao::new();
    leitor.receber(b"GET / HTTP/1.1\r\n");
    assert!(matches!(leitor.ler_requisicao(false), Leitura::Incompleta));
    assert!(matches!(
        leitor.ler_requisicao(true),
        Leitura::Falhou(FalhaDeLeitura::FechadaAntesDosCabecalhos)
    ));
    leitor.receber(b"Content-Length: 9\r\n\r\nmeio");
    assert!(matches!(leitor.ler_requisicao(false), Leitura::Incompleta));
    match leitor.ler_requisicao(true) {
        Leitura::Pronta(lida) => assert_eq!(lida.corpo, b"meio"),
        outra => panic!("{outra:?}"),
    }
}

#[test]
fn requisicao_grande_demais() {
    let mut leitor = LeitorDeRequisicao::new();
    leitor.receber(&vec![b'a'; MAX_CORPO]);
    assert!(matches!(leitor.ler_requisicao(false), Leitura::Incompleta));
    leitor.receber(b"a");
    assert!(matches!(
        leitor.ler_requisicao(false),
        Leitura::Falhou(FalhaDeLeitura::CabecalhosGrandesDemais)
    ));
    let mut leitor = LeitorDeRequisicao::new();
    leitor.receber(b"POST / HTTP/1.1\r\nContent-Length: 1048577\r\n\r\n");
    match leitor.ler_requisicao(false) {
        Leitura::Falhou(falha) => {
            assert_eq!(falha, FalhaDeLeitura::CorpoGrandeDemais(1_048_577));
            assert_eq!(falha.mensagem(), "corpo grande demais: 1048577");
        }
        outra => panic!("{outra:?}"),
    }
    assert_eq!(
        FalhaDeLeitura::CabecalhosGrandesDemais.mensagem(),
        "cabecalhos grandes demais"
    );
    assert_eq!(
        FalhaDeLeitura::FechadaAntesDosCabecalhos.mensagem(),
        "conexao fechada antes dos cabecalhos"
    );
}

#[test]
fn estado_da_ponte_recomeca_com_os_trechos() {
    let mut estado = BridgeState::new();
    estado.set_segments(vec!["a".to_string(), "b".to_string()]);
    estado.set_progress(1, razao(0.5));
    let (progresso, total) = estado.snapshot();
    assert_eq!((progresso.index, total), (1, 2));
    assert_eq!(f32::from_bits(progresso.ratio.bits), 0.5);
    estado.set_segments(vec!["c".to_string()]);
    assert_eq!(estado.snapshot().0.index, 0);
    estado.clear();
    assert_eq!(estado.snapshot().1, 0);
}

#[test]
fn comparacoes_de_ponto_flutuante_pelos_bits() {
    let valores = [
        f32::NEG_INFINITY, -2.5, -1.0, -f32::MIN_POSITIVE, -0.0, 0.0, f32::MIN_POSITIVE, 0.06, 0.5,
        1.0, 2.0, 9.0, f32::INFINITY, f32::NAN,
    ];
    for a in valores {
        for b in valores {
            assert_eq!(razao(a).less(razao(b)), a < b, "{a} < {b}");
            assert_eq!(razao(a).reaches(razao(b)), a >= b, "{a} >= {b}");
        }
        assert_eq!(razao(a).is_finite(), a.is_finite());
        assert_eq!(razao(a).clamp(razao(0.5), razao(2.0)).bits, a.clamp(0.5, 2.0).to_bits());
    }
}

#[test]
fn pedido_escrito_e_lido_de_volta() {
    let corpo = "{\"text\":\"olá\"}";
    let escrito = format!(
        "POST /read HTTP/1.1\r\nOrigin: {EXTENSAO}\r\nX-Vox-Token: segredo\r\nContent-Length: {}\r\n\r\n{corpo}",
        corpo.len()
    );
    for corte in 0..escrito.len() {
        let mut leitor = LeitorDeRequisicao::new();
        leitor.receber(&escrito.as_bytes()[..corte]);
        assert!(matches!(leitor.ler_requisicao(false), Leitura::Incompleta));
        leitor.receber(&escrito.as_bytes()[corte..]);
        match leitor.ler_requisicao(false) {
            Leitura::Pronta(lida) => {
                assert_eq!(lida.metodo, "POST");
                assert_eq!(lida.caminho, "/read");
                assert_eq!(lida.origem.as_deref(), Some(EXTENSAO));
                assert_eq!(lida.token.as_deref(), Some("segredo"));
                assert_eq!(lida.corpo, corpo.as_bytes());
            }
            outra => panic!("{outra:?}"),
        }
    }
}

#[test]
fn leitura_aceita_responde_com_os_trechos() {
    let trechos = vec!["Ele disse \"olá\".".to_string(), "a\\b\n\u{1}".to_string()];
    let resposta = resposta_de_leitura(&trechos, EXTENSAO.to_string());
    assert_eq!(resposta.codigo, 200);
    assert_eq!(
        resposta.corpo,
        "{\"ok\":true,\"segments\":[\"Ele disse \\\"olá\\\".\",\"a\\\\b\\n\\u0001\"]}"
    );
    assert_eq!(resposta.origem.as_deref(), Some(EXTENSAO));

    let vazia = resposta_de_leitura(&Vec::new(), EXTENSAO.to_string());
    assert_eq!(vazia.corpo, "{\"ok\":true,\"segments\":[]}");
    let dada = resposta_de_leitura_dada("[\"a\"]", EXTENSAO.to_string());
    assert_eq!(dada.codigo, 200);
    assert_eq!(dada.corpo, "{\"ok\":true,\"segments\":[\"a\"]}");
}

#[test]
fn progresso_responde_onde_a_leitura_esta() {
    let resposta = resposta_de_progresso(3, "0.5", 12, EXTENSAO.to_string());
    assert_eq!(resposta.codigo, 200);
    assert_eq!(resposta.corpo, "{\"index\":3,\"ratio\":0.5,\"segments\":12}");
    assert_eq!(resposta.origem.as_deref(), Some(EXTENSAO));
}
