use vox::front::aspas_abertas;
use vox::text::{
    ascii_lower_chars, blank, contains_text, decimal_text, directory_of, find_char, hex_digits_text,
    hexadecimal_text, join_texts, parse_size, same_text, split_at_char, split_lines, split_words,
    squeeze, to_chars, to_text, trim_slashes, trimmed, white,
};

fn palavras(texto: &str) -> Vec<String> {
    let chars = to_chars(texto);
    split_words(&chars).iter().map(|palavra| to_text(palavra)).collect()
}

fn linhas(texto: &str) -> Vec<String> {
    let chars = to_chars(texto);
    split_lines(&chars).iter().map(|linha| to_text(linha)).collect()
}

fn tamanho(texto: &str) -> Option<usize> {
    let chars = to_chars(texto);
    parse_size(&chars)
}

#[test]
fn contador_de_aspas_reconhece_os_casos() {
    assert_eq!(aspas_abertas(r#"const a = "ok";"#), 2);
    assert_eq!(aspas_abertas(r#"const a = "partida"#), 1);
    assert_eq!(aspas_abertas(r#"const a = `crase com " dentro`;"#), 0);
}

#[test]
fn aspas_escapadas_nao_contam() {
    assert_eq!(aspas_abertas(r#"const a = "diz \"oi\"";"#), 2);
    assert_eq!(aspas_abertas("\\"), 0);
    assert_eq!(aspas_abertas("\"\\"), 1);
}

#[test]
fn branco_e_o_mesmo_em_todos_os_caracteres() {
    for codigo in 0..=0x10ffffu32 {
        if let Some(c) = char::from_u32(codigo) {
            assert_eq!(white(c), c.is_whitespace(), "{codigo:x}");
        }
    }
}

#[test]
fn aparar_e_o_mesmo_que_na_biblioteca_padrao() {
    for texto in ["", "  ", " a ", "a b ", "\u{3000}x\u{85}", "\tlinha\r\n"] {
        assert_eq!(trimmed(texto), texto.trim());
        assert_eq!(blank(texto), texto.trim().is_empty());
    }
}

#[test]
fn palavras_sao_as_da_biblioteca_padrao() {
    for texto in ["", "   ", "um", " um  dois\ttres\n", "a\u{a0}b"] {
        let esperadas: Vec<String> = texto.split_whitespace().map(|p| p.to_string()).collect();
        assert_eq!(palavras(texto), esperadas);
        let chars = to_chars(texto);
        assert_eq!(to_text(&squeeze(&chars)), esperadas.join(" "));
    }
}

#[test]
fn linhas_sao_as_da_biblioteca_padrao() {
    for texto in ["", "a", "a\n", "a\r\nb", "a\r\n\r\n", "\n\nx\r", "\r\n"] {
        let esperadas: Vec<String> = texto.lines().map(|l| l.to_string()).collect();
        assert_eq!(linhas(texto), esperadas);
    }
}

#[test]
fn pedacos_entre_separadores() {
    for texto in ["", "+", "a+b", "a++b+", "sem"] {
        let chars = to_chars(texto);
        let pedacos: Vec<String> =
            split_at_char(&chars, '+').iter().map(|p| to_text(p)).collect();
        let esperados: Vec<String> = texto.split('+').map(|p| p.to_string()).collect();
        assert_eq!(pedacos, esperados);
    }
}

#[test]
fn primeira_ocorrencia_de_um_caractere() {
    let chars = to_chars("a: b: c");
    assert_eq!(find_char(&chars, ':'), Some(1));
    assert_eq!(find_char(&chars, 'z'), None);
}

#[test]
fn tamanhos_lidos_como_na_biblioteca_padrao() {
    for texto in [
        "0", "7", "+7", "-7", "", "+", "12x", " 12", "00012", "18446744073709551615",
        "18446744073709551616", "99999999999999999999999",
    ] {
        assert_eq!(tamanho(texto), texto.parse::<usize>().ok(), "{texto}");
    }
}

#[test]
fn numeros_escritos_como_na_biblioteca_padrao() {
    for numero in [0u64, 9, 10, 255, 4096, 1_000_000, u64::MAX] {
        assert_eq!(decimal_text(numero), format!("{numero}"));
        assert_eq!(hexadecimal_text(numero), format!("{numero:x}"));
        assert_eq!(hex_digits_text(numero, 16), format!("{numero:016x}"));
    }
}

#[test]
fn comparar_e_procurar() {
    assert!(same_text("ação", "ação"));
    assert!(!same_text("ação", "acao"));
    assert!(contains_text("was already registered", "registered"));
    assert!(contains_text("abc", ""));
    assert!(contains_text("abc", "abc"));
    assert!(!contains_text("ab", "abc"));
    assert!(contains_text("xxabc", "abc"));
}

#[test]
fn juntar_e_baixar_a_caixa() {
    let partes = vec!["a".to_string(), "b".to_string(), "c".to_string()];
    assert_eq!(join_texts(&partes, ", "), "a, b, c");
    assert_eq!(join_texts(&Vec::new(), ", "), "");
    let chars = to_chars("Content-LENGTH É");
    assert_eq!(to_text(&ascii_lower_chars(&chars)), "content-length É");
}

#[test]
fn enderecos_e_pastas() {
    assert_eq!(trim_slashes("http://x//"), "http://x");
    assert_eq!(trim_slashes("///"), "");
    assert_eq!(directory_of("C:\\vox\\config\\settings.json"), "C:\\vox\\config\\");
    assert_eq!(directory_of("/home/u/settings.json"), "/home/u/");
    assert_eq!(directory_of("vox-settings.json"), "");
}
