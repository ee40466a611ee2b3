use vox::autostart::{
    add_arguments, delete_arguments, is_enabled, query_arguments, set_given, sync, ToolRun,
};
use vox::float::Double;
use vox::hud::{
    shape_hud, HudMemory, HudRole, HudShape, HudWindow, Place, ShapePlan, SILENCIO_APOS_MOVER,
};
use vox::presence::{PaintCheck, Presence, Watch, PRESENCE_ATTEMPTS};

fn largura(valor: f64) -> Option<Double> {
    Some(Double { bits: valor.to_bits() })
}

fn janela(visible: bool, width: Option<Double>) -> HudWindow {
    HudWindow { monitor: true, visible, width, position_known: true, remembered_on_screen: None }
}

#[test]
fn tamanhos_das_formas() {
    for forma in [HudShape::Bar, HudShape::Column, HudShape::ColumnCaptions] {
        assert_eq!(f64::from_bits(forma.width().bits), f64::from(forma.size().0));
    }
    assert_eq!(HudShape::Bar.size(), (360, 136));
    assert_eq!(HudShape::Column.size().1, HudShape::ColumnCaptions.size().1);
    assert_eq!(HudShape::Bar.role(), HudRole::Dictation);
    assert_eq!(HudShape::of_reading(true).role(), HudRole::Reading);
}

#[test]
fn papel_se_guarda_e_se_esquece() {
    let mut memoria = HudMemory::new();
    assert_eq!(memoria.current_role(), None);
    memoria.set_current_role(HudRole::Reading);
    assert_eq!(memoria.current_role(), Some(HudRole::Reading));
    memoria.set_current_role(HudRole::Dictation);
    assert_eq!(memoria.current_role(), Some(HudRole::Dictation));
    memoria.forget_role();
    assert_eq!(memoria.current_role(), None);
}

#[test]
fn movimento_nosso_dura_450_ms() {
    let mut memoria = HudMemory::new();
    assert!(!memoria.movement_is_ours(0));
    memoria.marcar_movimento_programado(1000);
    assert!(memoria.movement_is_ours(1000));
    assert!(memoria.movement_is_ours(1000 + SILENCIO_APOS_MOVER - 1));
    assert!(!memoria.movement_is_ours(1000 + SILENCIO_APOS_MOVER));
    memoria.set_current_role(HudRole::Reading);
    assert_eq!(memoria.dragged(1000, true), None);
    assert_eq!(memoria.dragged(2 * SILENCIO_APOS_MOVER, true), Some(HudRole::Reading));
    assert_eq!(memoria.dragged(2 * SILENCIO_APOS_MOVER, false), None);
}

#[test]
fn legenda_mantem_a_borda_direita() {
    let mut memoria = HudMemory::new();
    memoria.set_current_role(HudRole::Reading);
    let plano =
        shape_hud(&mut memoria, HudShape::ColumnCaptions, janela(true, largura(136.0)), 0);
    assert_eq!(plano, ShapePlan::ResizeFirst(Place::RightEdge));
    let plano = shape_hud(&mut memoria, HudShape::Column, janela(true, largura(504.0)), 0);
    assert_eq!(plano, ShapePlan::MoveFirst(Place::RightEdge));
    let plano = shape_hud(&mut memoria, HudShape::Column, janela(true, largura(136.0)), 0);
    assert_eq!(plano, ShapePlan::MoveFirst(Place::Current));
    let plano = shape_hud(&mut memoria, HudShape::Column, janela(true, None), 0);
    assert_eq!(plano, ShapePlan::MoveFirst(Place::Current));
    let plano = shape_hud(&mut memoria, HudShape::Column, janela(true, largura(f64::NAN)), 0);
    assert_eq!(plano, ShapePlan::ResizeFirst(Place::Current));
}

#[test]
fn papel_novo_nao_herda_o_lugar() {
    let mut memoria = HudMemory::new();
    memoria.set_current_role(HudRole::Reading);
    let plano = shape_hud(&mut memoria, HudShape::Bar, janela(true, largura(136.0)), 5);
    assert_eq!(plano, ShapePlan::ResizeFirst(Place::Default));
    assert_eq!(memoria.current_role(), Some(HudRole::Dictation));
    assert!(memoria.movement_is_ours(5));
    let lembrada = HudWindow { remembered_on_screen: Some(true), ..janela(false, largura(360.0)) };
    assert_eq!(
        shape_hud(&mut memoria, HudShape::Bar, lembrada, 5),
        ShapePlan::MoveFirst(Place::Remembered)
    );
    let perdida = HudWindow { remembered_on_screen: Some(false), ..janela(false, None) };
    assert_eq!(
        shape_hud(&mut memoria, HudShape::Bar, perdida, 5),
        ShapePlan::MoveFirst(Place::Default)
    );
}

#[test]
fn sem_monitor_so_muda_o_tamanho() {
    let mut memoria = HudMemory::new();
    let sem = HudWindow { monitor: false, ..janela(true, None) };
    assert_eq!(shape_hud(&mut memoria, HudShape::Bar, sem, 0), ShapePlan::ResizeOnly);
    assert_eq!(memoria.current_role(), None);
}

#[test]
fn voltar_ao_padrao_no_papel_em_que_esta() {
    let mut memoria = HudMemory::new();
    assert_eq!(memoria.reset_position(true, true), None);
    memoria.set_current_role(HudRole::Reading);
    assert_eq!(memoria.reset_position(false, true), None);
    assert_eq!(memoria.current_role(), Some(HudRole::Reading));
    assert_eq!(memoria.reset_position(true, true), Some(HudShape::ColumnCaptions));
    assert_eq!(memoria.current_role(), None);
    memoria.set_current_role(HudRole::Dictation);
    assert_eq!(memoria.reset_position(true, true), Some(HudShape::Bar));
}

#[test]
fn numeros_duplos_pelos_bits() {
    let valores = [f64::NEG_INFINITY, -1.0, -0.0, 0.0, 136.0, 504.0, f64::INFINITY, f64::NAN];
    for a in valores {
        let x = Double { bits: a.to_bits() };
        assert_eq!(x.is_finite(), a.is_finite());
        for b in valores {
            let y = Double { bits: b.to_bits() };
            assert_eq!(x.reaches(y), a >= b);
            assert_eq!(x.equals(y), a == b);
            assert_eq!(x.differs(y), a < b || a > b);
        }
    }
}

#[test]
fn resposta_atrasada_nao_vale() {
    let mut presenca = Presence::new();
    let primeira = presenca.ask();
    let segunda = presenca.ask();
    presenca.confirm(primeira);
    assert_eq!(presenca.confirm_paint(primeira, true, 2), PaintCheck::Settled);
    assert_eq!(presenca.confirm_paint(segunda, true, 2), PaintCheck::Wake(1));
    assert_eq!(presenca.confirm_paint(segunda, true, 0), PaintCheck::Reload);
    assert_eq!(presenca.confirm_paint(segunda, false, 0), PaintCheck::Settled);
    presenca.confirm(segunda);
    presenca.confirm(primeira);
    assert_eq!(presenca.confirm_paint(segunda, true, 0), PaintCheck::Settled);
    let terceira = presenca.ask();
    let quarta = presenca.ask();
    assert_eq!(presenca.confirm_paint(terceira, true, 2), PaintCheck::Settled);
    assert_eq!(presenca.confirm_paint(quarta, true, PRESENCE_ATTEMPTS), PaintCheck::Wake(1));
}

#[test]
fn vigia_confere_a_pintura_a_cada_cinco() {
    let mut vigia = Watch::new();
    let mut conferidas = Vec::new();
    for batida in 1..=12 {
        let escondida = vigia.watch_hud(false);
        assert!(!escondida.topmost && !escondida.check_paint);
        let feita = vigia.watch_hud(true);
        assert!(feita.topmost);
        if feita.check_paint {
            conferidas.push(batida);
        }
    }
    assert_eq!(conferidas, vec![5, 10]);
}

#[test]
fn argumentos_do_registro() {
    let chave = "HKCU\\Software\\Microsoft\\Windows\\CurrentVersion\\Run";
    assert_eq!(query_arguments(), vec!["query", chave, "/v", "Vox"]);
    assert_eq!(delete_arguments(), vec!["delete", chave, "/v", "Vox", "/f"]);
    assert_eq!(
        add_arguments("C:\\Meu Vox\\vox.exe"),
        vec!["add", chave, "/v", "Vox", "/t", "REG_SZ", "/d", "\"C:\\Meu Vox\\vox.exe\"", "/f"]
    );
}

#[test]
fn partida_automatica() {
    let rodou = |success: bool| ToolRun { success, stderr: b" ERRO: \xff \r\n".to_vec() };
    assert!(is_enabled(&Some(rodou(true))));
    assert!(!is_enabled(&Some(rodou(false))));
    assert!(!is_enabled(&None));
    let muda = |liga: bool, deu: bool, resta: bool| {
        vox::autostart::set(liga, &Ok(rodou(deu)), resta)
    };
    assert_eq!(muda(true, true, false), Ok(()));
    // Apagar o que não existe é sucesso.
    assert_eq!(muda(false, false, false), Ok(()));
    assert_eq!(muda(false, false, true), Err("ERRO: \u{fffd}".to_string()));
    assert_eq!(muda(true, false, false), Err("ERRO: \u{fffd}".to_string()));
    assert_eq!(
        vox::autostart::set(true, &Err("sumiu".to_string()), false),
        Err("chamar o reg.exe: sumiu".to_string())
    );
    assert_eq!(set_given(true, false, true, " x "), Err("x".to_string()));
    assert_eq!(sync(true, false), Some(true));
    assert_eq!(sync(false, false), None);
}
