use zeebx::audio_mede::{conta_estalos, Janela, Quadro, Totais, SEM_OCUPACAO};

#[test]
fn salto_acima_de_um_quarto_da_escala_e_estalo() {
    // Canal esquerdo salta 8192 (estalo); o direito salta exatamente 8191 (não é).
    let lote = [8192i16, 8191, 8192, 8191];
    let (n, ultima) = conta_estalos([0, 0], &lote, 2);
    assert_eq!(n, 1);
    assert_eq!(ultima, [8192, 8191]);
}

#[test]
fn a_costura_com_o_lote_anterior_conta() {
    let (n, ultima) = conta_estalos([-20000, 0], &[20000, 0], 1);
    assert_eq!(n, 1);
    assert_eq!(ultima, [20000, 0]);
}

#[test]
fn dois_lotes_seguidos_contam_como_um_so() {
    let a = [0i16, 0, 10000, -10000, 10000, 10000];
    let b = [-5000i16, 10000, 32767, -32768];
    let (na, ua) = conta_estalos([0, 0], &a, 3);
    let (nb, ub) = conta_estalos(ua, &b, 2);
    let juntos: Vec<i16> = a.iter().chain(b.iter()).copied().collect();
    let (n, u) = conta_estalos([0, 0], &juntos, 5);
    assert_eq!(na + nb, n);
    assert_eq!(ub, u);
    assert_eq!(n, 6);
}

#[test]
fn so_os_quadros_aceitos_contam() {
    let lote = [0i16, 0, 30000, 30000, -30000, -30000];
    assert_eq!(conta_estalos([0, 0], &lote, 1), (0, [0, 0]));
    assert_eq!(conta_estalos([0, 0], &lote, 2).0, 2);
    assert_eq!(conta_estalos([0, 0], &lote, 10).0, 4, "aceitos além do lote: o lote inteiro");
    assert_eq!(conta_estalos([7, 8], &[], 5), (0, [7, 8]));
    assert_eq!(conta_estalos([0, 0], &[30000], 1), (0, [0, 0]), "amostra sem par fica de fora");
}

fn quadro(ocupacao: u32) -> Quadro {
    Quadro { virtual_ms: 17, devidas: 735, oferecidas: 740, aceitas: 735, descartadas: 5, estalos: 1, secando: ocupacao < 10, ocupacao }
}

#[test]
fn a_janela_fecha_no_quadro_120() {
    let mut j = Janela::nova();
    for k in 1..120 {
        assert!(!j.acumula(quadro(50)), "quadro {k}");
    }
    assert!(j.acumula(quadro(5)));
    assert_eq!(j.quadros, 120);
    assert_eq!(j.virtual_ms, 17 * 120);
    assert_eq!(j.aceitas, 735 * 120);
    assert_eq!(j.descartadas, 600);
    assert_eq!(j.estalos, 120);
    assert_eq!(j.secando, 1);
    assert_eq!(j.ocupacao_min, 5);
    assert_eq!(j.ocupacao_soma, 50 * 119 + 5);
    assert_eq!(j.ocupacao_n, 120);
}

#[test]
fn ocupacao_sem_aviso_nao_conta() {
    let mut j = Janela::nova();
    j.acumula(quadro(SEM_OCUPACAO));
    assert_eq!(j.ocupacao_min, SEM_OCUPACAO);
    assert_eq!(j.ocupacao_n, 0);
    assert_eq!(j.ocupacao_soma, 0);
    j.acumula(quadro(70));
    assert_eq!(j.ocupacao_min, 70);
    assert_eq!(j.ocupacao_n, 1);
}

#[test]
fn totais_somam() {
    let mut t = Totais::novos();
    t.soma(735, 740, 2);
    t.soma(10, 0, 1);
    assert_eq!(t, Totais { aceitas: 745, devidas: 740, estalos: 3 });
}

#[test]
fn um_relatorio_a_cada_120_quadros() {
    let q = Quadro {
        virtual_ms: 16,
        devidas: 735,
        oferecidas: 735,
        aceitas: 735,
        descartadas: 0,
        estalos: 0,
        secando: false,
        ocupacao: SEM_OCUPACAO,
    };
    let mut j = Janela::nova();
    let mut relatorios = Vec::new();
    for n in 1..=360u32 {
        assert!(j.cabe_quadro(&q));
        if let Some(fechada) = j.registra(q) {
            assert_eq!(fechada.quadros, 120);
            assert_eq!(fechada.aceitas, 120 * 735);
            relatorios.push(n);
        }
    }
    assert_eq!(relatorios, vec![120, 240, 360]);
    assert_eq!(j, Janela::nova());
}

#[test]
fn quadro_que_estouraria_um_contador_nao_cabe() {
    let mut j = Janela::nova();
    j.aceitas = u64::MAX;
    let q = Quadro {
        virtual_ms: 0,
        devidas: 0,
        oferecidas: 0,
        aceitas: 1,
        descartadas: 0,
        estalos: 0,
        secando: false,
        ocupacao: SEM_OCUPACAO,
    };
    assert!(!j.cabe_quadro(&q));
}
