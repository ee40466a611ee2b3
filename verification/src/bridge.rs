//! The local bridge through which the browser extension asks for a reading.
//!
//! An address on `127.0.0.1` can be reached by any page the user opens, and the
//! browser stops the answer, not the request. So what may act is decided here,
//! before anything acts: the origin has to be an extension, and the token has to
//! be the expected one.

use vstd::prelude::*;
use vstd::utf8::{decode_utf8, encode_utf8, valid_utf8};

use crate::float::Single;
use crate::outside::{json_of_texts, lossy_text, utf8_lossy, write_texts};
use crate::text::{
    ascii_lower, ascii_lower_chars, blank, char_lists, chars_start_with, copy_text, decimal,
    decimal_text, find_char, first_index, is_blank, lines, occurs_at, optional, optional_str,
    parse_size, parsed_size, same_chars, same_text, slice_chars, split_lines, split_words,
    starts_with, texts, to_chars, to_text, trim, trim_chars, words,
};

verus! {

/// The largest request body that is accepted, and the most that is read in
/// search of the end of the headers.
pub const MAX_CORPO: usize = 1024 * 1024;

// ------------------------------------------------------------ reading requests

/// The first place at or after `from` where the pattern occurs.
pub open spec fn first_occurrence(bytes: Seq<u8>, pattern: Seq<u8>, from: int) -> Option<int>
    decreases bytes.len() + 1 - from,
{
    if from + pattern.len() > bytes.len() {
        None
    } else if occurs_at(bytes, pattern, from) {
        Some(from)
    } else {
        first_occurrence(bytes, pattern, from + 1)
    }
}

/// Four bytes end the headers: two line breaks in a row.
pub open spec fn header_end() -> Seq<u8> {
    seq![13u8, 10u8, 13u8, 10u8]
}

pub proof fn lemma_first_occurrence(bytes: Seq<u8>, pattern: Seq<u8>, from: int)
    requires
        0 <= from,
    ensures
        match first_occurrence(bytes, pattern, from) {
            Some(at) => from <= at && occurs_at(bytes, pattern, at) && forall|k: int|
                from <= k < at ==> !occurs_at(bytes, pattern, k),
            None => forall|k: int| from <= k ==> !occurs_at(bytes, pattern, k),
        },
    decreases bytes.len() + 1 - from,
{
    if from + pattern.len() <= bytes.len() && !occurs_at(bytes, pattern, from) {
        lemma_first_occurrence(bytes, pattern, from + 1);
    }
}

/// Do the bytes at `at` read as the pattern?
fn reads_at(bytes: &[u8], pattern: &[u8], at: usize) -> (found: bool)
    requires
        at + pattern@.len() <= bytes@.len(),
    ensures
        found == occurs_at(bytes@, pattern@, at as int),
{
    let mut j: usize = 0;
    while j < pattern.len()
        invariant
            j <= pattern.len(),
            at + pattern@.len() <= bytes@.len(),
            at + pattern.len() <= bytes.len(),
            forall|k: int| 0 <= k < j ==> bytes@[at + k] == pattern@[k],
        decreases pattern.len() - j,
    {
        if bytes[at + j] != pattern[j] {
            proof {
                let window = bytes@.subrange(at as int, at + pattern@.len());
                assert(window[j as int] == bytes@[at + j]);
            }
            return false;
        }
        j = j + 1;
    }
    proof {
        assert(bytes@.subrange(at as int, at + pattern@.len()) =~= pattern@);
    }
    true
}

/// The first place where the pattern occurs in the bytes.
pub fn encontrar(agulha: &[u8], padrao: &[u8]) -> (posicao: Option<usize>)
    requires
        padrao@.len() > 0,
    ensures
        match posicao {
            Some(p) => first_occurrence(agulha@, padrao@, 0) == Some(p as int) && occurs_at(
                agulha@,
                padrao@,
                p as int,
            ) && forall|k: int| 0 <= k < p ==> !occurs_at(agulha@, padrao@, k),
            None => first_occurrence(agulha@, padrao@, 0) is None && forall|k: int|
                !occurs_at(agulha@, padrao@, k),
        },
{
    proof {
        lemma_first_occurrence(agulha@, padrao@, 0);
    }
    if agulha.len() < padrao.len() {
        return None;
    }
    let last: usize = agulha.len() - padrao.len();
    let mut at: usize = 0;
    while at < last
        invariant
            at <= last,
            last + padrao@.len() == agulha@.len(),
            first_occurrence(agulha@, padrao@, 0) == first_occurrence(
                agulha@,
                padrao@,
                at as int,
            ),
            forall|k: int| 0 <= k < at ==> !occurs_at(agulha@, padrao@, k),
        decreases last - at,
    {
        if reads_at(agulha, padrao, at) {
            return Some(at);
        }
        at = at + 1;
    }
    if reads_at(agulha, padrao, last) {
        Some(last)
    } else {
        None
    }
}

/// A request, as far as the bridge reads it.
#[derive(Debug)]
pub struct Requisicao {
    pub metodo: String,
    pub caminho: String,
    pub origem: Option<String>,
    pub token: Option<String>,
    pub corpo: Vec<u8>,
}

/// What a request reads as.
pub ghost struct RequestView {
    pub method: Seq<char>,
    pub path: Seq<char>,
    pub origin: Option<Seq<char>>,
    pub token: Option<Seq<char>>,
    pub body: Seq<u8>,
}

impl View for Requisicao {
    type V = RequestView;

    open spec fn view(&self) -> RequestView {
        RequestView {
            method: self.metodo@,
            path: self.caminho@,
            origin: optional(self.origem),
            token: optional(self.token),
            body: self.corpo@,
        }
    }
}

/// The header fields that the bridge looks at.
pub ghost struct Fields {
    pub origin: Option<Seq<char>>,
    pub token: Option<Seq<char>>,
    pub size: usize,
}

/// One more header line. The name counts in any case, the value without the
/// white space around it, and a later line prevails over an earlier one. A size
/// that cannot be read counts as zero.
pub open spec fn with_field(fields: Fields, line: Seq<char>) -> Fields {
    match first_index(line, ':') {
        None => fields,
        Some(at) => {
            let name = ascii_lower(line.take(at));
            let value = trim(line.skip(at + 1));
            if name == "origin"@ {
                Fields { origin: Some(value), ..fields }
            } else if name == "x-vox-token"@ {
                Fields { token: Some(value), ..fields }
            } else if name == "content-length"@ {
                Fields {
                    size: match parsed_size(value) {
                        Some(size) => size,
                        None => 0,
                    },
                    ..fields
                }
            } else {
                fields
            }
        },
    }
}

/// The header fields of the lines, in order.
pub open spec fn fields_of(list: Seq<Seq<char>>) -> Fields
    decreases list.len(),
{
    if list.len() == 0 {
        Fields { origin: None, token: None, size: 0 }
    } else {
        with_field(fields_of(list.drop_last()), list.last())
    }
}

/// The piece at `index`, or the empty text.
pub open spec fn piece_or_empty(list: Seq<Seq<char>>, index: int) -> Seq<char> {
    if 0 <= index < list.len() {
        list[index]
    } else {
        Seq::empty()
    }
}

/// What the head of a request says: the method and the path are the first two
/// words of its first line, the fields come from the other lines.
pub ghost struct HeadView {
    pub method: Seq<char>,
    pub path: Seq<char>,
    pub fields: Fields,
}

pub open spec fn head_of(text: Seq<char>) -> HeadView {
    let list = lines(text);
    let first = words(piece_or_empty(list, 0));
    HeadView {
        method: piece_or_empty(first, 0),
        path: piece_or_empty(first, 1),
        fields: fields_of(
            if list.len() > 0 {
                list.skip(1)
            } else {
                list
            },
        ),
    }
}

/// The head of a request.
#[derive(Debug)]
pub struct Cabecalho {
    pub metodo: String,
    pub caminho: String,
    pub origem: Option<String>,
    pub token: Option<String>,
    pub tamanho: usize,
}

impl View for Cabecalho {
    type V = HeadView;

    open spec fn view(&self) -> HeadView {
        HeadView {
            method: self.metodo@,
            path: self.caminho@,
            fields: Fields {
                origin: optional(self.origem),
                token: optional(self.token),
                size: self.tamanho,
            },
        }
    }
}

/// Do the characters read as the given text?
fn reads_as(chars: &Vec<char>, text: &str) -> (same: bool)
    ensures
        same == (chars@ == text@),
{
    let other = to_chars(text);
    same_chars(chars.as_slice(), other.as_slice())
}

/// The text of the piece at `index`, or the empty text.
fn piece_text(list: &Vec<Vec<char>>, index: usize) -> (text: String)
    ensures
        text@ == piece_or_empty(char_lists(list@), index as int),
{
    if index < list.len() {
        to_text(list[index].as_slice())
    } else {
        String::new()
    }
}

/// Reads the head of a request out of its text.
pub fn ler_cabecalho(texto: &str) -> (cabecalho: Cabecalho)
    ensures
        cabecalho@ == head_of(texto@),
{
    let chars = to_chars(texto);
    let linhas = split_lines(chars.as_slice());
    let inicial: Vec<char> = if linhas.len() > 0 {
        slice_chars(linhas[0].as_slice(), 0, linhas[0].len())
    } else {
        Vec::new()
    };
    let ghost list = lines(texto@);
    proof {
        assert(inicial@ =~= piece_or_empty(list, 0));
    }
    let partes = split_words(inicial.as_slice());
    let metodo = piece_text(&partes, 0);
    let caminho = piece_text(&partes, 1);
    let mut origem: Option<String> = None;
    let mut token: Option<String> = None;
    let mut tamanho: usize = 0;
    let start: usize = if linhas.len() > 0 {
        1
    } else {
        0
    };
    let ghost rest = list.skip(start as int);
    let mut i: usize = start;
    while i < linhas.len()
        invariant
            start <= i <= linhas.len(),
            char_lists(linhas@) == list,
            rest == list.skip(start as int),
            fields_of(rest.take(i - start)) == (Fields {
                origin: optional(origem),
                token: optional(token),
                size: tamanho,
            }),
        decreases linhas.len() - i,
    {
        let linha = &linhas[i];
        proof {
            assert(rest.take(i + 1 - start).drop_last() =~= rest.take(i - start));
            assert(rest[i - start] == linha@);
        }
        match find_char(linha.as_slice(), ':') {
            None => {},
            Some(at) => {
                let fim: usize = linha.len();
                let nome_bruto = slice_chars(linha.as_slice(), 0, at);
                let nome = ascii_lower_chars(nome_bruto.as_slice());
                let resto = slice_chars(linha.as_slice(), at + 1, fim);
                let valor = trim_chars(resto.as_slice());
                proof {
                    assert(nome_bruto@ =~= linha@.take(at as int));
                    assert(resto@ =~= linha@.skip(at + 1));
                }
                if reads_as(&nome, "origin") {
                    origem = Some(to_text(valor.as_slice()));
                } else if reads_as(&nome, "x-vox-token") {
                    token = Some(to_text(valor.as_slice()));
                } else if reads_as(&nome, "content-length") {
                    tamanho = match parse_size(valor.as_slice()) {
                        Some(lido) => lido,
                        None => 0,
                    };
                }
            },
        }
        i = i + 1;
    }
    proof {
        assert(rest.take(rest.len() as int) =~= rest);
        assert(list.skip(0) =~= list);
    }
    Cabecalho { metodo, caminho, origem, token, tamanho }
}

/// Why a request could not be read.
#[derive(Debug, Clone, Copy, PartialEq, Eq, Structural)]
pub enum FalhaDeLeitura {
    CabecalhosGrandesDemais,
    FechadaAntesDosCabecalhos,
    CorpoGrandeDemais(usize),
}

impl FalhaDeLeitura {
    /// The failure in words.
    pub open spec fn said(self) -> Seq<char> {
        match self {
            FalhaDeLeitura::CabecalhosGrandesDemais => "cabecalhos grandes demais"@,
            FalhaDeLeitura::FechadaAntesDosCabecalhos => "conexao fechada antes dos cabecalhos"@,
            FalhaDeLeitura::CorpoGrandeDemais(tamanho) => "corpo grande demais: "@ + decimal(
                tamanho as nat,
            ),
        }
    }

    /// The failure in words.
    pub fn mensagem(&self) -> (texto: String)
        ensures
            texto@ == self.said(),
            texto@ == match *self {
                FalhaDeLeitura::CabecalhosGrandesDemais => "cabecalhos grandes demais"@,
                FalhaDeLeitura::FechadaAntesDosCabecalhos => "conexao fechada antes dos cabecalhos"@,
                FalhaDeLeitura::CorpoGrandeDemais(size) => "corpo grande demais: "@ + decimal(
                    size as nat,
                ),
            },
    {
        match self {
            FalhaDeLeitura::CabecalhosGrandesDemais => copy_text("cabecalhos grandes demais"),
            FalhaDeLeitura::FechadaAntesDosCabecalhos => copy_text(
                "conexao fechada antes dos cabecalhos",
            ),
            FalhaDeLeitura::CorpoGrandeDemais(tamanho) => {
                let mut texto = copy_text("corpo grande demais: ");
                texto.append(decimal_text(*tamanho as u64).as_str());
                texto
            },
        }
    }
}

/// How far the reading of a request has come.
#[derive(Debug)]
pub enum Leitura {
    /// More bytes are needed.
    Incompleta,
    Pronta(Requisicao),
    Falhou(FalhaDeLeitura),
}

/// How far the reading of a request has come.
pub ghost enum ReadView {
    Incomplete,
    Ready(RequestView),
    Failed(FalhaDeLeitura),
}

impl View for Leitura {
    type V = ReadView;

    open spec fn view(&self) -> ReadView {
        match self {
            Leitura::Incompleta => ReadView::Incomplete,
            Leitura::Pronta(pedido) => ReadView::Ready(pedido@),
            Leitura::Falhou(falha) => ReadView::Failed(*falha),
        }
    }
}

/// What a known head and the bytes after it amount to. The body is as long as
/// the head announces; where the connection ends before that, what came counts.
pub open spec fn read_body(head: HeadView, rest: Seq<u8>, closed: bool) -> ReadView {
    let size = head.fields.size;
    if size > MAX_CORPO {
        ReadView::Failed(FalhaDeLeitura::CorpoGrandeDemais(size))
    } else if rest.len() < size && !closed {
        ReadView::Incomplete
    } else {
        ReadView::Ready(
            RequestView {
                method: head.method,
                path: head.path,
                origin: head.fields.origin,
                token: head.fields.token,
                body: if rest.len() < size {
                    rest
                } else {
                    rest.take(size as int)
                },
            },
        )
    }
}

/// The bytes of the head, with what ends it; none where it has not ended.
pub open spec fn head_bytes(raw: Seq<u8>) -> Seq<u8> {
    match first_occurrence(raw, header_end(), 0) {
        Some(at) => raw.take(at + 4),
        None => Seq::empty(),
    }
}

/// What the bytes received so far amount to, given how the bytes of the head read,
/// where `closed` says that no more will come.
pub open spec fn read_with(raw: Seq<u8>, head: Seq<char>, closed: bool) -> ReadView {
    match first_occurrence(raw, header_end(), 0) {
        None => if raw.len() > MAX_CORPO {
            ReadView::Failed(FalhaDeLeitura::CabecalhosGrandesDemais)
        } else if closed {
            ReadView::Failed(FalhaDeLeitura::FechadaAntesDosCabecalhos)
        } else {
            ReadView::Incomplete
        },
        Some(at) => read_body(head_of(head), raw.skip(at + 4), closed),
    }
}

/// What the bytes received so far amount to.
pub open spec fn read_request(raw: Seq<u8>, closed: bool) -> ReadView {
    read_with(raw, utf8_lossy(head_bytes(raw)), closed)
}

/// The request that a known head and the bytes after it make.
pub fn ler_corpo(cabecalho: Cabecalho, resto: &[u8], fechada: bool) -> (leitura: Leitura)
    ensures
        leitura@ == read_body(cabecalho@, resto@, fechada),
{
    let Cabecalho { metodo, caminho, origem, token, tamanho } = cabecalho;
    if tamanho > MAX_CORPO {
        return Leitura::Falhou(FalhaDeLeitura::CorpoGrandeDemais(tamanho));
    }
    if resto.len() < tamanho && !fechada {
        return Leitura::Incompleta;
    }
    let fim: usize = if resto.len() < tamanho {
        resto.len()
    } else {
        tamanho
    };
    let mut corpo: Vec<u8> = Vec::new();
    let mut i: usize = 0;
    while i < fim
        invariant
            i <= fim <= resto.len(),
            corpo@ == resto@.take(i as int),
        decreases fim - i,
    {
        corpo.push(resto[i]);
        i = i + 1;
    }
    proof {
        if resto@.len() < tamanho {
            assert(resto@.take(fim as int) =~= resto@);
        }
    }
    Leitura::Pronta(Requisicao { metodo, caminho, origem, token, corpo })
}

/// Collects the bytes of one request.
#[derive(Debug)]
pub struct LeitorDeRequisicao {
    pub bruto: Vec<u8>,
}

impl LeitorDeRequisicao {
    /// Nothing received yet.
    pub fn new() -> (leitor: LeitorDeRequisicao)
        ensures
            leitor.bruto@ == Seq::<u8>::empty(),
    {
        LeitorDeRequisicao { bruto: Vec::new() }
    }

    /// Takes what the connection handed over.
    pub fn receber(&mut self, bytes: &[u8])
        ensures
            final(self).bruto@ == old(self).bruto@ + bytes@,
    {
        self.bruto.extend_from_slice(bytes);
    }

    /// Where the reading stands, to be asked after each piece that came and, with
    /// `fechada`, when the connection has ended. A head that is UTF-8 is read as it
    /// stands.
    pub fn ler_requisicao(&self, fechada: bool) -> (leitura: Leitura)
        ensures
            leitura@ == read_request(self.bruto@, fechada),
            valid_utf8(head_bytes(self.bruto@)) ==> leitura@ == read_with(
                self.bruto@,
                decode_utf8(head_bytes(self.bruto@)),
                fechada,
            ),
    {
        let fim: Vec<u8> = vec![13, 10, 13, 10];
        proof {
            assert(fim@ =~= header_end());
        }
        let raw = self.bruto.as_slice();
        let total: usize = raw.len();
        match encontrar(raw, fim.as_slice()) {
            None => {
                if total > MAX_CORPO {
                    Leitura::Falhou(FalhaDeLeitura::CabecalhosGrandesDemais)
                } else if fechada {
                    Leitura::Falhou(FalhaDeLeitura::FechadaAntesDosCabecalhos)
                } else {
                    Leitura::Incompleta
                }
            },
            Some(posicao) => {
                let corte: usize = posicao + 4;
                let cabeca = vstd::slice::slice_subrange(raw, 0, corte);
                let resto = vstd::slice::slice_subrange(raw, corte, total);
                let texto = lossy_text(cabeca);
                proof {
                    assert(cabeca@ =~= raw@.take(corte as int));
                    assert(resto@ =~= raw@.skip(corte as int));
                }
                ler_corpo(ler_cabecalho(texto.as_str()), resto, fechada)
            },
        }
    }
}

/// A request that is complete stays what it is, whatever else arrives on the
/// connection.
pub proof fn law_complete_request_is_final(raw: Seq<u8>, extra: Seq<u8>, closed: bool)
    requires
        read_request(raw, false) is Ready,
    ensures
        read_request(raw + extra, closed) == read_request(raw, false),
{
    let pattern = header_end();
    lemma_first_occurrence(raw, pattern, 0);
    lemma_first_occurrence(raw + extra, pattern, 0);
    let at = first_occurrence(raw, pattern, 0)->0;
    let longer = raw + extra;
    assert(longer.subrange(at, at + 4) =~= raw.subrange(at, at + 4));
    assert(occurs_at(longer, pattern, at));
    let first = first_occurrence(longer, pattern, 0)->0;
    assert(first <= at);
    assert(raw.subrange(first, first + 4) =~= longer.subrange(first, first + 4));
    assert(occurs_at(raw, pattern, first));
    assert(first == at);
    assert(longer.take(at + 4) =~= raw.take(at + 4));
    let size = head_of(utf8_lossy(raw.take(at + 4))).fields.size as int;
    assert(longer.skip(at + 4).take(size) =~= raw.skip(at + 4).take(size));
}

/// No request holds more than the announced body, and none more than the limit;
/// while the connection is open, a request is ready only with all of it.
pub proof fn law_body_is_bounded(raw: Seq<u8>, closed: bool)
    requires
        read_request(raw, closed) is Ready,
    ensures
        read_request(raw, closed)->Ready_0.body.len() <= 1_048_576,
        !closed ==> first_occurrence(raw, header_end(), 0) is Some && read_request(
            raw,
            closed,
        )->Ready_0.body.len() == head_of(
            utf8_lossy(raw.take(first_occurrence(raw, header_end(), 0)->0 + 4)),
        ).fields.size,
{
}

// ---------------------------------------------------------------- who may act

/// Is this the origin of a browser extension?
pub open spec fn from_extension(origin: Option<Seq<char>>) -> bool {
    origin is Some && starts_with(origin->0, "chrome-extension://"@)
}

/// Only an extension of a Chromium browser. A web page carries the origin of its
/// own site and is refused here.
pub fn origem_permitida(origem: Option<&str>) -> (permitida: bool)
    ensures
        permitida == from_extension(optional_str(origem)),
{
    match origem {
        Some(valor) => {
            let chars = to_chars(valor);
            chars_start_with(chars.as_slice(), "chrome-extension://")
        },
        None => false,
    }
}

/// An answer: its status, its body, and the origin that may read it.
#[derive(Debug)]
pub struct Resposta {
    pub codigo: u16,
    pub corpo: String,
    pub origem: Option<String>,
}

/// What a request leads to.
#[derive(Debug)]
pub enum Passo {
    /// Answer, and do nothing else.
    Responder(Resposta),
    /// Read aloud the text that the body holds.
    Ler { corpo: Vec<u8>, origem: String },
    /// Stop the reading.
    Parar { origem: String },
    /// Tell where the reading is.
    Progresso { origem: String },
}

/// What a request leads to.
pub ghost enum StepView {
    Answer { code: u16, body: Seq<char>, reader: Option<Seq<char>> },
    Read { content: Seq<u8>, origin: Seq<char> },
    Stop { origin: Seq<char> },
    Progress { origin: Seq<char> },
}

impl View for Passo {
    type V = StepView;

    open spec fn view(&self) -> StepView {
        match self {
            Passo::Responder(resposta) => StepView::Answer {
                code: resposta.codigo,
                body: resposta.corpo@,
                reader: optional(resposta.origem),
            },
            Passo::Ler { corpo, origem } => StepView::Read { content: corpo@, origin: origem@ },
            Passo::Parar { origem } => StepView::Stop { origin: origem@ },
            Passo::Progresso { origem } => StepView::Progress { origin: origem@ },
        }
    }
}

/// What a request leads to, in the order in which it is held against the rules:
/// the preflight, which comes without a token, then the origin, the token, and
/// the route.
pub open spec fn step_for(request: RequestView, token: Seq<char>) -> StepView {
    let RequestView { method, path, origin, token: given, body } = request;
    if method == "OPTIONS"@ {
        if from_extension(origin) {
            StepView::Answer { code: 204, body: ""@, reader: origin }
        } else {
            StepView::Answer { code: 403, body: ""@, reader: None }
        }
    } else if !from_extension(origin) {
        StepView::Answer { code: 403, body: "{\"error\":\"origem nao permitida\"}"@, reader: None }
    } else if given != Some(token) {
        StepView::Answer { code: 401, body: "{\"error\":\"token invalido\"}"@, reader: origin }
    } else if method == "POST"@ && path == "/read"@ {
        StepView::Read { content: body, origin: origin->0 }
    } else if method == "POST"@ && path == "/stop"@ {
        StepView::Stop { origin: origin->0 }
    } else if method == "GET"@ && path == "/progress"@ {
        StepView::Progress { origin: origin->0 }
    } else if method == "GET"@ && path == "/health"@ {
        StepView::Answer { code: 200, body: "{\"ok\":true,\"app\":\"vox\"}"@, reader: origin }
    } else {
        StepView::Answer { code: 404, body: "{\"error\":\"rota desconhecida\"}"@, reader: origin }
    }
}

/// Decides what a request leads to.
pub fn atender(pedido: Requisicao, token_esperado: &str) -> (passo: Passo)
    ensures
        passo@ == step_for(pedido@, token_esperado@),
{
    let Requisicao { metodo, caminho, origem, token, corpo } = pedido;
    let permitida = match &origem {
        Some(valor) => origem_permitida(Some(valor.as_str())),
        None => origem_permitida(None),
    };
    if same_text(metodo.as_str(), "OPTIONS") {
        return if permitida {
            Passo::Responder(Resposta { codigo: 204, corpo: copy_text(""), origem })
        } else {
            Passo::Responder(Resposta { codigo: 403, corpo: copy_text(""), origem: None })
        };
    }
    let valor = match origem {
        Some(valor) => valor,
        None => String::new(),
    };
    if !permitida {
        return Passo::Responder(
            Resposta {
                codigo: 403,
                corpo: copy_text("{\"error\":\"origem nao permitida\"}"),
                origem: None,
            },
        );
    }
    let confere = match token {
        Some(dado) => same_text(dado.as_str(), token_esperado),
        None => false,
    };
    if !confere {
        return Passo::Responder(
            Resposta {
                codigo: 401,
                corpo: copy_text("{\"error\":\"token invalido\"}"),
                origem: Some(valor),
            },
        );
    }
    let post = same_text(metodo.as_str(), "POST");
    let get = same_text(metodo.as_str(), "GET");
    if post && same_text(caminho.as_str(), "/read") {
        Passo::Ler { corpo, origem: valor }
    } else if post && same_text(caminho.as_str(), "/stop") {
        Passo::Parar { origem: valor }
    } else if get && same_text(caminho.as_str(), "/progress") {
        Passo::Progresso { origem: valor }
    } else if get && same_text(caminho.as_str(), "/health") {
        Passo::Responder(
            Resposta {
                codigo: 200,
                corpo: copy_text("{\"ok\":true,\"app\":\"vox\"}"),
                origem: Some(valor),
            },
        )
    } else {
        Passo::Responder(
            Resposta {
                codigo: 404,
                corpo: copy_text("{\"error\":\"rota desconhecida\"}"),
                origem: Some(valor),
            },
        )
    }
}

/// The refusal of a body that asks for no reading: what is wrong with it, in the
/// error the parser gave or in the emptiness of the text.
pub open spec fn refused_entry(entry: Result<String, String>) -> Option<Seq<char>> {
    match entry {
        Ok(text) => if is_blank(text@) {
            Some("{\"error\":\"texto vazio\"}"@)
        } else {
            None
        },
        Err(reason) => Some("{\"error\":\"json invalido: "@ + reason@ + "\"}"@),
    }
}

/// Takes what the body of a reading request was parsed to, or why it was not,
/// and gives the text to read, or the answer that refuses it.
pub fn aceitar_leitura(entrada: Result<String, String>, origem: String) -> (aceita: Result<
    String,
    Resposta,
>)
    ensures
        match aceita {
            Ok(texto) => entrada == Ok::<String, String>(texto) && refused_entry(entrada) is None,
            Err(resposta) => resposta.codigo == 400 && refused_entry(entrada) == Some(
                resposta.corpo@,
            ) && resposta.origem == Some(origem),
        },
        aceita is Ok <==> (entrada is Ok && !is_blank(entrada->Ok_0@)),
        aceita matches Ok(texto) ==> texto@ == entrada->Ok_0@,
        aceita matches Err(resposta) ==> resposta.codigo == 400 && match entrada {
            Ok(_) => resposta.corpo@ == "{\"error\":\"texto vazio\"}"@,
            Err(motivo) => resposta.corpo@ == "{\"error\":\"json invalido: "@ + motivo@ + "\"}"@,
        },
{
    match entrada {
        Ok(texto) => {
            if blank(texto.as_str()) {
                Err(
                    Resposta {
                        codigo: 400,
                        corpo: copy_text("{\"error\":\"texto vazio\"}"),
                        origem: Some(origem),
                    },
                )
            } else {
                Ok(texto)
            }
        },
        Err(motivo) => {
            let mut corpo = copy_text("{\"error\":\"json invalido: ");
            corpo.append(motivo.as_str());
            corpo.append("\"}");
            Err(Resposta { codigo: 400, corpo, origem: Some(origem) })
        },
    }
}

/// The answer to a request to stop, once the reading has been stopped.
pub fn resposta_de_parada(origem: String) -> (resposta: Resposta)
    ensures
        resposta.codigo == 200,
        resposta.corpo@ == "{\"ok\":true}"@,
        resposta.origem == Some(origem),
{
    Resposta { codigo: 200, corpo: copy_text("{\"ok\":true}"), origem: Some(origem) }
}

/// What is said once a reading has begun, given its chunks as JSON: that it was
/// taken, and the chunks in the order in which they are spoken.
pub open spec fn reading_answer(list: Seq<char>) -> Seq<char> {
    "{\"ok\":true,\"segments\":"@ + list + "}"@
}

/// The answer to a request to read, given the chunks that will be spoken as JSON.
pub fn resposta_de_leitura_dada(lista: &str, origem: String) -> (resposta: Resposta)
    ensures
        resposta.codigo == 200,
        resposta.corpo@ == reading_answer(lista@),
        resposta.corpo@ == "{\"ok\":true,\"segments\":"@ + lista@ + "}"@,
        resposta.origem == Some(origem),
{
    let mut corpo = copy_text("{\"ok\":true,\"segments\":");
    corpo.append(lista);
    corpo.append("}");
    Resposta { codigo: 200, corpo, origem: Some(origem) }
}

/// The answer to a request to read, once the reading has begun: the chunks that will
/// be spoken, for the extension to find them on the page.
pub fn resposta_de_leitura(segments: &Vec<String>, origem: String) -> (resposta: Resposta)
    ensures
        resposta.codigo == 200,
        resposta.corpo@ == reading_answer(json_of_texts(texts(segments@))),
        resposta.corpo@ == "{\"ok\":true,\"segments\":"@ + json_of_texts(texts(segments@)) + "}"@,
        resposta.origem == Some(origem),
{
    let lista = write_texts(segments);
    resposta_de_leitura_dada(lista.as_str(), origem)
}

/// What is said of where the reading is, given how the position in the chunk is
/// written.
pub open spec fn progress_answer(index: nat, ratio: Seq<char>, total: nat) -> Seq<char> {
    "{\"index\":"@ + decimal(index) + ",\"ratio\":"@ + ratio + ",\"segments\":"@ + decimal(
        total,
    ) + "}"@
}

/// The answer to a request for the progress: the chunk that is being spoken, the
/// position in it as it was written, and how many chunks there are.
pub fn resposta_de_progresso(indice: usize, razao: &str, total: usize, origem: String) -> (resposta:
    Resposta)
    ensures
        resposta.codigo == 200,
        resposta.corpo@ == progress_answer(indice as nat, razao@, total as nat),
        resposta.corpo@ == "{\"index\":"@ + decimal(indice as nat) + ",\"ratio\":"@ + razao@
            + ",\"segments\":"@ + decimal(total as nat) + "}"@,
        resposta.origem == Some(origem),
{
    let mut corpo = copy_text("{\"index\":");
    corpo.append(decimal_text(indice as u64).as_str());
    corpo.append(",\"ratio\":");
    corpo.append(razao);
    corpo.append(",\"segments\":");
    corpo.append(decimal_text(total as u64).as_str());
    corpo.append("}");
    Resposta { codigo: 200, corpo, origem: Some(origem) }
}

// -------------------------------------------------------------------- answers

/// The words that stand for a status.
pub open spec fn reason_of(code: u16) -> Seq<char> {
    if code == 200 {
        "OK"@
    } else if code == 204 {
        "No Content"@
    } else if code == 400 {
        "Bad Request"@
    } else if code == 401 {
        "Unauthorized"@
    } else if code == 403 {
        "Forbidden"@
    } else if code == 404 {
        "Not Found"@
    } else {
        "Error"@
    }
}

/// The header lines that let one origin, and no other, read the answer.
pub open spec fn cors_lines(origin: Option<Seq<char>>) -> Seq<char> {
    match origin {
        Some(value) => "Access-Control-Allow-Origin: "@ + value
            + "\r\nAccess-Control-Allow-Methods: GET, POST, OPTIONS\r\nAccess-Control-Allow-Headers: Content-Type, X-Vox-Token\r\nAccess-Control-Max-Age: 600\r\n"@,
        None => ""@,
    }
}

/// An answer as it goes over the connection.
pub open spec fn answer_text(code: u16, body: Seq<char>, origin: Option<Seq<char>>) -> Seq<char> {
    "HTTP/1.1 "@ + decimal(code as nat) + " "@ + reason_of(code)
        + "\r\nContent-Type: application/json; charset=utf-8\r\nContent-Length: "@ + decimal(
        encode_utf8(body).len(),
    ) + "\r\n"@ + cors_lines(origin) + "Connection: close\r\n\r\n"@ + body
}

/// An answer as it goes over the connection. It echoes the exact origin in place
/// of a wildcard: a wildcard would let any installed extension read it.
pub fn responder(codigo: u16, corpo: &str, origem: Option<&str>) -> (saida: String)
    ensures
        saida@ == answer_text(codigo, corpo@, optional_str(origem)),
{
    let motivo = match codigo {
        200 => "OK",
        204 => "No Content",
        400 => "Bad Request",
        401 => "Unauthorized",
        403 => "Forbidden",
        404 => "Not Found",
        _ => "Error",
    };
    let cors = match origem {
        Some(valor) => {
            let mut linhas = copy_text("Access-Control-Allow-Origin: ");
            linhas.append(valor);
            linhas.append(
                "\r\nAccess-Control-Allow-Methods: GET, POST, OPTIONS\r\nAccess-Control-Allow-Headers: Content-Type, X-Vox-Token\r\nAccess-Control-Max-Age: 600\r\n",
            );
            linhas
        },
        None => copy_text(""),
    };
    let tamanho: usize = corpo.as_bytes().len();
    let mut saida = copy_text("HTTP/1.1 ");
    saida.append(decimal_text(codigo as u64).as_str());
    saida.append(" ");
    saida.append(motivo);
    saida.append("\r\nContent-Type: application/json; charset=utf-8\r\nContent-Length: ");
    saida.append(decimal_text(tamanho as u64).as_str());
    saida.append("\r\n");
    saida.append(cors.as_str());
    saida.append("Connection: close\r\n\r\n");
    saida.append(corpo);
    saida
}

/// A request that does not come from an extension does nothing: it is answered
/// with 403, and no origin is given leave to read the answer.
pub proof fn law_foreign_origin_is_refused(request: RequestView, token: Seq<char>)
    requires
        !from_extension(request.origin),
    ensures
        step_for(request, token) == (StepView::Answer {
            code: 403,
            body: if request.method == "OPTIONS"@ {
                ""@
            } else {
                "{\"error\":\"origem nao permitida\"}"@
            },
            reader: None,
        }),
{
}

/// A request from an extension without the expected token does nothing: unless
/// it is a preflight, it is answered with 401.
pub proof fn law_wrong_token_is_refused(request: RequestView, token: Seq<char>)
    requires
        from_extension(request.origin),
        request.token != Some(token),
        request.method != "OPTIONS"@,
    ensures
        step_for(request, token) == (StepView::Answer {
            code: 401,
            body: "{\"error\":\"token invalido\"}"@,
            reader: request.origin,
        }),
{
}

/// Whatever acts, or tells where the reading is, was asked for by an extension
/// that knows the token.
pub proof fn law_only_the_extension_acts(request: RequestView, token: Seq<char>)
    requires
        !(step_for(request, token) is Answer),
    ensures
        from_extension(request.origin),
        request.token == Some(token),
{
}

/// An extension that knows the token and asks for a reading gets one, of all that its
/// request carries; and a reading is begun for nobody else and on no other request.
pub proof fn law_who_may_ask_is_read_to(request: RequestView, token: Seq<char>)
    ensures
        (step_for(request, token) is Read) <==> {
            &&& from_extension(request.origin)
            &&& request.token == Some(token)
            &&& request.method == "POST"@
            &&& request.path == "/read"@
        },
        step_for(request, token) is Read ==> step_for(request, token) == (StepView::Read {
            content: request.body,
            origin: request.origin->0,
        }),
{
    reveal_strlit("POST");
    reveal_strlit("OPTIONS");
    reveal_strlit("/read");
    assert("POST"@.len() == 4);
    assert("OPTIONS"@.len() == 7);
}

/// The origin that may read an answer is the one that asked, and an extension:
/// never a wildcard.
pub proof fn law_readers_are_extensions(request: RequestView, token: Seq<char>)
    ensures
        ({
            let reader = match step_for(request, token) {
                StepView::Answer { code, body, reader } => reader,
                StepView::Read { content, origin } => Some(origin),
                StepView::Stop { origin } => Some(origin),
                StepView::Progress { origin } => Some(origin),
            };
            reader is Some ==> reader == request.origin && from_extension(reader) && reader->0
                != "*"@
        }),
{
    reveal_strlit("chrome-extension://");
    reveal_strlit("*");
}

/// Without an origin to read it, an answer names none: it is made of the status
/// line, the two lines on the body, the close, and the body.
pub proof fn law_no_reader_no_cors(code: u16, body: Seq<char>)
    ensures
        answer_text(code, body, None) == "HTTP/1.1 "@ + decimal(code as nat) + " "@ + reason_of(
            code,
        ) + "\r\nContent-Type: application/json; charset=utf-8\r\nContent-Length: "@ + decimal(
            encode_utf8(body).len(),
        ) + "\r\n"@ + "Connection: close\r\n\r\n"@ + body,
{
    reveal_strlit("");
    let front = "HTTP/1.1 "@ + decimal(code as nat) + " "@ + reason_of(code)
        + "\r\nContent-Type: application/json; charset=utf-8\r\nContent-Length: "@ + decimal(
        encode_utf8(body).len(),
    ) + "\r\n"@;
    assert(front + ""@ =~= front);
}

// ------------------------------------------------------ where the reading is

/// Where the reading is now, for the extension to draw the highlight.
#[derive(Debug, Clone, Copy, PartialEq, Eq, Structural)]
pub struct Progress {
    /// The index of the chunk being spoken.
    pub index: usize,
    /// The place within the chunk, from 0 to 1.
    pub ratio: Single,
}

/// What the extension may ask about the reading.
#[derive(Debug)]
pub struct BridgeState {
    pub progress: Progress,
    /// The chunks of the current reading, in order.
    pub segments: Vec<String>,
}

impl BridgeState {
    /// The beginning of the first chunk.
    pub open spec fn at_start(self) -> bool {
        self.progress.index == 0 && self.progress.ratio.bits == 0
    }

    /// No reading.
    pub fn new() -> (estado: BridgeState)
        ensures
            estado.at_start(),
            estado.progress.index == 0 && estado.progress.ratio.bits == 0,
            estado.segments@.len() == 0,
    {
        BridgeState {
            progress: Progress { index: 0, ratio: Single { bits: 0 } },
            segments: Vec::new(),
        }
    }

    /// The reading is at `ratio` of the chunk `index`, the ratio brought to lie
    /// between zero and one.
    pub fn set_progress(&mut self, index: usize, ratio: Single)
        ensures
            final(self).progress == (Progress {
                index,
                ratio: ratio.clamped(
                    Single { bits: 0 },
                    Single { bits: Single::ONE_BITS },
                ),
            }),
            final(self).segments == old(self).segments,
            final(self).progress.index == index,
            ratio.bits <= 0x3f80_0000 ==> final(self).progress.ratio == ratio,
            0x3f80_0000 < ratio.bits <= 0x7f80_0000 ==> final(self).progress.ratio.bits
                == 0x3f80_0000,
            0x8000_0000 < ratio.bits <= 0xff80_0000 ==> final(self).progress.ratio.bits == 0,
    {
        self.progress =
        Progress { index, ratio: ratio.clamp(Single { bits: 0 }, Single { bits: Single::ONE_BITS }) };
    }

    /// A new reading begins, with these chunks.
    pub fn set_segments(&mut self, segments: Vec<String>)
        ensures
            final(self).segments == segments,
            final(self).at_start(),
            final(self).progress.index == 0 && final(self).progress.ratio.bits == 0,
    {
        self.segments = segments;
        self.progress = Progress { index: 0, ratio: Single { bits: 0 } };
    }

    /// The reading is over.
    pub fn clear(&mut self)
        ensures
            final(self).segments@.len() == 0,
            final(self).at_start(),
            final(self).progress.index == 0 && final(self).progress.ratio.bits == 0,
    {
        self.segments = Vec::new();
        self.progress = Progress { index: 0, ratio: Single { bits: 0 } };
    }

    /// Where the reading is, and of how many chunks.
    pub fn snapshot(&self) -> (now: (Progress, usize))
        ensures
            now.0 == self.progress,
            now.1 == self.segments@.len(),
    {
        (self.progress, self.segments.len())
    }
}

/// What the extension has to be given to reach the bridge.
#[derive(Debug)]
pub struct Config {
    pub porta: u16,
    pub token: String,
}


// ------------------------------------------------- what a request is read as

/// Two line breaks in a row stand here.
spec fn head_ends(raw: Seq<u8>, at: int) -> bool {
    &&& 0 <= at && at + 4 <= raw.len()
    &&& raw[at] == 13 && raw[at + 1] == 10 && raw[at + 2] == 13 && raw[at + 3] == 10
}

proof fn lemma_head_ends(raw: Seq<u8>, at: int)
    ensures
        occurs_at(raw, header_end(), at) <==> head_ends(raw, at),
{
    if 0 <= at && at + 4 <= raw.len() {
        let window = raw.subrange(at, at + 4);
        assert(window[0] == raw[at] && window[1] == raw[at + 1] && window[2] == raw[at + 2]
            && window[3] == raw[at + 3]);
        if head_ends(raw, at) {
            assert(window =~= header_end());
        }
    }
}

/// The head of a request goes up to its first empty line, the body follows it, and
/// the body is as long as the head announces. More than 1 MiB is refused, be it
/// announced or be it a head that does not end. A body that is still on its way is
/// waited for, unless the connection was closed: then what came is the body.
pub proof fn law_head_then_body(raw: Seq<u8>, at: int, closed: bool)
    requires
        0 <= at,
        at + 4 <= raw.len(),
        raw[at] == 13 && raw[at + 1] == 10 && raw[at + 2] == 13 && raw[at + 3] == 10,
        forall|k: int|
            0 <= k < at ==> !((#[trigger] raw[k]) == 13 && raw[k + 1] == 10 && raw[k + 2] == 13
                && raw[k + 3] == 10),
    ensures
        ({
            let head = head_of(utf8_lossy(raw.subrange(0, at + 4)));
            let size = head.fields.size;
            let came = raw.len() - at - 4;
            let read = read_request(raw, closed);
            &&& size > 1_048_576 <==> read is Failed
            &&& read is Failed ==> read->Failed_0 == FalhaDeLeitura::CorpoGrandeDemais(size)
            &&& read is Incomplete <==> size <= 1_048_576 && came < size && !closed
            &&& read matches ReadView::Ready(request) ==> {
                &&& request.method == head.method
                &&& request.path == head.path
                &&& request.origin == head.fields.origin
                &&& request.token == head.fields.token
                &&& request.body.len() == if came < size {
                    came
                } else {
                    size as int
                }
                &&& forall|k: int|
                    0 <= k < request.body.len() ==> #[trigger] request.body[k] == raw[at + 4 + k]
            }
        }),
{
    lemma_first_occurrence(raw, header_end(), 0);
    lemma_head_ends(raw, at);
    match first_occurrence(raw, header_end(), 0) {
        Some(first) => {
            lemma_head_ends(raw, first);
            assert(first == at) by {
                if first < at {
                    assert(raw[first] == 13);
                }
            }
            assert(raw.take(at + 4) =~= raw.subrange(0, at + 4));
        },
        None => {},
    }
}

/// A head that has not ended is waited for, up to 1 MiB; where the connection is
/// closed before, there is no request.
pub proof fn law_head_is_waited_for(raw: Seq<u8>, closed: bool)
    requires
        forall|k: int|
            0 <= k && k + 4 <= raw.len() ==> !((#[trigger] raw[k]) == 13 && raw[k + 1] == 10
                && raw[k + 2] == 13 && raw[k + 3] == 10),
    ensures
        read_request(raw, closed) == if raw.len() > 1_048_576 {
            ReadView::Failed(FalhaDeLeitura::CabecalhosGrandesDemais)
        } else if closed {
            ReadView::Failed(FalhaDeLeitura::FechadaAntesDosCabecalhos)
        } else {
            ReadView::Incomplete
        },
{
    lemma_first_occurrence(raw, header_end(), 0);
    match first_occurrence(raw, header_end(), 0) {
        Some(first) => {
            lemma_head_ends(raw, first);
            assert(raw[first] == 13);
        },
        None => {},
    }
}

/// Does the line give this field, its name ending before the colon at `at`?
pub open spec fn gives_field(line: Seq<char>, name: Seq<char>, at: int) -> bool {
    &&& 0 <= at < line.len()
    &&& line[at] == ':'
    &&& forall|k: int| 0 <= k < at ==> (#[trigger] line[k]) != ':'
    &&& ascii_lower(line.subrange(0, at)) == name
}

proof fn lemma_first_colon(line: Seq<char>)
    ensures
        match first_index(line, ':') {
            Some(at) => 0 <= at < line.len() && line[at] == ':' && forall|k: int|
                0 <= k < at ==> (#[trigger] line[k]) != ':',
            None => forall|k: int| 0 <= k < line.len() ==> (#[trigger] line[k]) != ':',
        },
    decreases line.len(),
{
    if line.len() > 0 {
        let front = line.drop_last();
        lemma_first_colon(front);
        match first_index(front, ':') {
            Some(at) => {
                assert(front[at] == line[at]);
                assert forall|k: int| 0 <= k < at implies (#[trigger] line[k]) != ':' by {
                    assert(front[k] == line[k]);
                }
            },
            None => {
                assert forall|k: int| 0 <= k < front.len() implies (#[trigger] line[k]) != ':' by {
                    assert(front[k] == line[k]);
                }
            },
        }
    }
}

proof fn lemma_one_field(fields: Fields, line: Seq<char>)
    ensures
        ({
            let after = with_field(fields, line);
            &&& (exists|at: int| #[trigger] gives_field(line, "origin"@, at)) || after.origin
                == fields.origin
            &&& (exists|at: int| #[trigger] gives_field(line, "x-vox-token"@, at)) || after.token
                == fields.token
            &&& (exists|at: int| #[trigger] gives_field(line, "content-length"@, at))
                || after.size == fields.size
            &&& forall|at: int| #[trigger]
                gives_field(line, "origin"@, at) ==> after.origin == Some(
                    trim(line.subrange(at + 1, line.len() as int)),
                )
            &&& forall|at: int| #[trigger]
                gives_field(line, "x-vox-token"@, at) ==> after.token == Some(
                    trim(line.subrange(at + 1, line.len() as int)),
                )
            &&& forall|at: int| #[trigger]
                gives_field(line, "content-length"@, at) ==> after.size == match parsed_size(
                    trim(line.subrange(at + 1, line.len() as int)),
                ) {
                    Some(size) => size,
                    None => 0,
                }
        }),
{
    reveal_strlit("origin");
    reveal_strlit("x-vox-token");
    reveal_strlit("content-length");
    assert("origin"@.len() == 6 && "x-vox-token"@.len() == 11 && "content-length"@.len() == 14);
    lemma_first_colon(line);
    match first_index(line, ':') {
        None => {},
        Some(first) => {
            assert(line.take(first) =~= line.subrange(0, first));
            assert(line.skip(first + 1) =~= line.subrange(first + 1, line.len() as int));
            assert(gives_field(line, ascii_lower(line.take(first)), first));
            assert forall|at: int, name: Seq<char>| #[trigger]
                gives_field(line, name, at) implies at == first && name == ascii_lower(
                line.take(first),
            ) by {
                if at < first {
                    assert(line[at] != ':');
                }
                if first < at {
                    assert(line[first] != ':');
                }
            }
        },
    }
}

/// A field is what the last line that names it says, in whatever case it names it,
/// without the white space around it. A size that is none is zero.
pub proof fn law_last_line_prevails(list: Seq<Seq<char>>, i: int, at: int, name: Seq<char>)
    requires
        0 <= i < list.len(),
        gives_field(list[i], name, at),
        forall|j: int, b: int|
            i < j < list.len() ==> !(#[trigger] gives_field(list[j], name, b)),
    ensures
        ({
            let value = trim(list[i].subrange(at + 1, list[i].len() as int));
            &&& name == "origin"@ ==> fields_of(list).origin == Some(value)
            &&& name == "x-vox-token"@ ==> fields_of(list).token == Some(value)
            &&& name == "content-length"@ ==> fields_of(list).size == match parsed_size(value) {
                Some(size) => size,
                None => 0,
            }
        }),
    decreases list.len(),
{
    let front = list.drop_last();
    lemma_one_field(fields_of(front), list.last());
    if i < list.len() - 1 {
        assert(front[i] == list[i]);
        assert forall|j: int, b: int| i < j < front.len() implies !(#[trigger] gives_field(
            front[j],
            name,
            b,
        )) by {
            assert(front[j] == list[j]);
        }
        law_last_line_prevails(front, i, at, name);
        assert forall|b: int| !(#[trigger] gives_field(list.last(), name, b)) by {
            assert(list[list.len() - 1] == list.last());
            assert(!gives_field(list[list.len() - 1], name, b));
        }
    }
}

/// A field that no line names is not there, and a size that none names is zero.
pub proof fn law_unnamed_is_absent(list: Seq<Seq<char>>, name: Seq<char>)
    requires
        forall|j: int, b: int|
            0 <= j < list.len() ==> !(#[trigger] gives_field(list[j], name, b)),
    ensures
        name == "origin"@ ==> fields_of(list).origin is None,
        name == "x-vox-token"@ ==> fields_of(list).token is None,
        name == "content-length"@ ==> fields_of(list).size == 0,
    decreases list.len(),
{
    if list.len() > 0 {
        let front = list.drop_last();
        assert forall|j: int, b: int| 0 <= j < front.len() implies !(#[trigger] gives_field(
            front[j],
            name,
            b,
        )) by {
            assert(front[j] == list[j]);
        }
        law_unnamed_is_absent(front, name);
        lemma_one_field(fields_of(front), list.last());
        assert forall|b: int| !(#[trigger] gives_field(list.last(), name, b)) by {
            assert(list[list.len() - 1] == list.last());
            assert(!gives_field(list[list.len() - 1], name, b));
        }
    }
}

/// The first word of a request is its method and the second one its path; what is
/// not there is empty. The lines after the first give the fields.
pub proof fn law_first_line(text: Seq<char>)
    requires
        lines(text).len() > 0,
    ensures
        ({
            let first = words(lines(text)[0]);
            &&& first.len() > 0 ==> head_of(text).method == first[0]
            &&& first.len() == 0 ==> head_of(text).method.len() == 0
            &&& first.len() > 1 ==> head_of(text).path == first[1]
            &&& first.len() < 2 ==> head_of(text).path.len() == 0
            &&& head_of(text).fields == fields_of(
                lines(text).subrange(1, lines(text).len() as int),
            )
        }),
{
    assert(lines(text).skip(1) =~= lines(text).subrange(1, lines(text).len() as int));
}

/// An extension is told by its address: it begins with the scheme of an extension,
/// and no other origin counts as one.
pub proof fn law_extensions_are_told_by_their_scheme(origin: Option<Seq<char>>)
    ensures
        from_extension(origin) <==> (origin is Some && exists|id: Seq<char>|
            origin->0 == "chrome-extension://"@ + id),
{
    let scheme = "chrome-extension://"@;
    if from_extension(origin) {
        let value = origin->0;
        assert(value =~= scheme + value.skip(scheme.len() as int));
    }
    if origin is Some && exists|id: Seq<char>| origin->0 == scheme + id {
        let id = choose|id: Seq<char>| origin->0 == scheme + id;
        assert((scheme + id).take(scheme.len() as int) =~= scheme);
    }
}

/// Each route is reached by its method and its path, by an extension that knows the
/// token and by nobody else. What has no route is answered with 404, and asking
/// whether the app is there with 200.
pub proof fn law_routes(request: RequestView, token: Seq<char>)
    ensures
        ({
            let known = from_extension(request.origin) && request.token == Some(token);
            let step = step_for(request, token);
            let post = request.method == "POST"@;
            let get = request.method == "GET"@;
            &&& step is Stop <==> known && post && request.path == "/stop"@
            &&& step is Progress <==> known && get && request.path == "/progress"@
            &&& step matches StepView::Stop { origin } ==> Some(origin) == request.origin
            &&& step matches StepView::Progress { origin } ==> Some(origin) == request.origin
            &&& known && get && request.path == "/health"@ ==> step == (StepView::Answer {
                code: 200,
                body: "{\"ok\":true,\"app\":\"vox\"}"@,
                reader: request.origin,
            })
            &&& known && request.method != "OPTIONS"@ && !(post && (request.path == "/read"@
                || request.path == "/stop"@)) && !(get && (request.path == "/progress"@
                || request.path == "/health"@)) ==> step == (StepView::Answer {
                code: 404,
                body: "{\"error\":\"rota desconhecida\"}"@,
                reader: request.origin,
            })
        }),
{
    reveal_strlit("POST");
    reveal_strlit("GET");
    reveal_strlit("OPTIONS");
    reveal_strlit("/read");
    reveal_strlit("/stop");
    reveal_strlit("/progress");
    reveal_strlit("/health");
    assert("POST"@.len() == 4 && "GET"@.len() == 3 && "OPTIONS"@.len() == 7);
    assert("/read"@.len() == 5 && "/progress"@.len() == 9 && "/health"@.len() == 7);
    assert("/stop"@.len() == 5 && "/read"@[1] == 'r' && "/stop"@[1] == 's');
}

/// A preflight of an extension is let through without a token and does nothing.
pub proof fn law_preflight(request: RequestView, token: Seq<char>)
    requires
        request.method == "OPTIONS"@,
        from_extension(request.origin),
    ensures
        step_for(request, token) matches StepView::Answer { code, body, reader } && code == 204
            && body.len() == 0 && reader == request.origin,
{
    reveal_strlit("");
}

/// An answer says its status, how long its body is in bytes, which origin may read
/// it, and that the connection closes; the body stands at its end.
pub proof fn law_answer_for_a_reader(code: u16, body: Seq<char>, reader: Seq<char>)
    ensures
        answer_text(code, body, Some(reader)) == "HTTP/1.1 "@ + decimal(code as nat) + " "@
            + reason_of(code)
            + "\r\nContent-Type: application/json; charset=utf-8\r\nContent-Length: "@ + decimal(
            encode_utf8(body).len(),
        ) + "\r\n"@ + ("Access-Control-Allow-Origin: "@ + reader
            + "\r\nAccess-Control-Allow-Methods: GET, POST, OPTIONS\r\nAccess-Control-Allow-Headers: Content-Type, X-Vox-Token\r\nAccess-Control-Max-Age: 600\r\n"@)
            + "Connection: close\r\n\r\n"@ + body,
{
}

/// Each status that the bridge answers with goes by its own words.
pub proof fn law_status_words(code: u16)
    ensures
        reason_of(code) == "OK"@ <==> code == 200,
        reason_of(code) == "No Content"@ <==> code == 204,
        reason_of(code) == "Bad Request"@ <==> code == 400,
        reason_of(code) == "Unauthorized"@ <==> code == 401,
        reason_of(code) == "Forbidden"@ <==> code == 403,
        reason_of(code) == "Not Found"@ <==> code == 404,
        reason_of(code) == "Error"@ <==> !(code == 200 || code == 204 || code == 400 || code == 401
            || code == 403 || code == 404),
{
    reveal_strlit("OK");
    reveal_strlit("No Content");
    reveal_strlit("Bad Request");
    reveal_strlit("Unauthorized");
    reveal_strlit("Forbidden");
    reveal_strlit("Not Found");
    reveal_strlit("Error");
    assert("OK"@.len() == 2 && "No Content"@.len() == 10 && "Bad Request"@.len() == 11);
    assert("Unauthorized"@.len() == 12 && "Forbidden"@.len() == 9 && "Not Found"@.len() == 9);
    assert("Error"@.len() == 5 && "Forbidden"@[0] == 'F' && "Not Found"@[0] == 'N');
}

} // verus!
