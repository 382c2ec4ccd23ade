use zeebx::memoria_jit::{
    arredonda_pagina, cabe_na_arena, plano_arena, GuestMemory, MemError, MemoriaJit, PlanoArena,
    Regiao, RegiaoGuest,
};

fn regiao(name: &'static str, base: u32, bytes: Vec<u8>, writable: bool, executavel: bool) -> RegiaoGuest {
    RegiaoGuest { name, base, bytes, writable, executavel }
}

fn mapa() -> GuestMemory {
    GuestMemory {
        regions: vec![
            regiao("codigo", 0x1000, (0..32u8).collect(), false, true),
            regiao("dados", 0x2000, vec![0xaa; 0x2000], true, false),
        ],
    }
}

#[test]
fn em_vetores_copia_o_mapa_e_le_os_bytes_do_carregador() {
    let m = MemoriaJit::em_vetores(&mapa());
    assert_eq!(m.regioes().len(), 2);
    assert_eq!(m.regioes()[0].name, "codigo");
    assert_eq!(m.regioes()[0].len, 32);
    assert_eq!(m.read(0x1004, 4).unwrap(), &[4, 5, 6, 7]);
    assert_eq!(m.read(0x1000, 32).unwrap().len(), 32);
}

#[test]
fn leitura_fora_do_mapa_falha() {
    let m = MemoriaJit::em_vetores(&mapa());
    assert_eq!(m.read(0x101e, 4), Err(MemError::Unmapped { addr: 0x101e, len: 4 }));
    assert_eq!(m.read(0x0fff, 1), Err(MemError::Unmapped { addr: 0x0fff, len: 1 }));
    assert_eq!(m.read(0x5000, 1), Err(MemError::Unmapped { addr: 0x5000, len: 1 }));
}

#[test]
fn escrita_em_regiao_so_de_leitura_falha_e_nada_muda() {
    let mut m = MemoriaJit::em_vetores(&mapa());
    assert_eq!(m.write(0x1000, &[9, 9]), Err(MemError::ReadOnly { addr: 0x1000, region: "codigo" }));
    assert_eq!(m.read(0x1000, 2).unwrap(), &[0, 1]);
    assert_eq!(m.write(0x3ffe, &[1, 2, 3]), Err(MemError::Unmapped { addr: 0x3ffe, len: 3 }));
}

#[test]
fn a_leitura_devolve_o_que_a_escrita_escreveu() {
    let mut m = MemoriaJit::em_vetores(&mapa());
    assert_eq!(m.write(0x2ffe, &[1, 2, 3, 4]), Ok(()));
    assert_eq!(m.read(0x2ffe, 4).unwrap(), &[1, 2, 3, 4]);
    assert_eq!(m.read(0x2ffd, 1).unwrap(), &[0xaa]);
    assert_eq!(m.read(0x3002, 1).unwrap(), &[0xaa]);
    assert_eq!(m.read(0x1000, 1).unwrap(), &[0]);
}

#[test]
fn executavel_so_na_regiao_de_codigo() {
    let m = MemoriaJit::em_vetores(&mapa());
    assert!(m.executavel(0x1000));
    assert!(m.executavel(0x101c));
    assert!(!m.executavel(0x101d), "a palavra passa do fim da região");
    assert!(!m.executavel(0x2000));
    assert!(!m.executavel(0x9000));
    assert_eq!(m.regiao(0x2000, 4).map(|r| r.name), Some("dados"));
    assert!(m.regiao(0x4000, 1).is_none());
}

#[test]
fn contem_nas_bordas() {
    let r = Regiao { name: "r", base: 0x100, len: 0x10, writable: true, executavel: false };
    assert!(r.contem(0x100, 0x10));
    assert!(!r.contem(0x100, 0x11));
    assert!(!r.contem(0xff, 1));
    assert!(r.contem(0x110, 0));
    assert!(!r.contem(0xffff_ffff, 2));
}

#[test]
fn so_paginas_inteiras_de_regioes_gravaveis_vao_para_a_tabela() {
    let m = MemoriaJit::em_vetores(&mapa());
    assert_eq!(m.pagina_gravavel(2), Some((1, 0)));
    assert_eq!(m.pagina_gravavel(3), Some((1, 0x1000)));
    assert_eq!(m.pagina_gravavel(1), None, "código só de leitura");
    assert_eq!(m.pagina_gravavel(4), None, "fora do mapa");
}

#[test]
fn arena_exige_base_alinhada_e_paginas_separadas() {
    assert!(cabe_na_arena(&mapa()));
    let desalinhada = GuestMemory { regions: vec![regiao("a", 0x1010, vec![0; 16], true, false)] };
    assert!(!cabe_na_arena(&desalinhada));
    let mesma_pagina = GuestMemory {
        regions: vec![
            regiao("b", 0x3000, vec![0; 0x1800], true, false),
            regiao("a", 0x1000, vec![0; 0x10], true, false),
            regiao("c", 0x4000, vec![0; 0x10], false, false),
        ],
    };
    assert!(!cabe_na_arena(&mesma_pagina), "b termina no meio da página de c");
    let vazia_no_inicio = GuestMemory {
        regions: vec![regiao("a", 0x1000, vec![], true, false), regiao("b", 0x1000, vec![0; 4], true, false)],
    };
    assert!(cabe_na_arena(&vazia_no_inicio));
}

#[test]
fn arredonda_para_paginas_inteiras() {
    assert_eq!(arredonda_pagina(0), 0);
    assert_eq!(arredonda_pagina(1), 4096);
    assert_eq!(arredonda_pagina(4096), 4096);
    assert_eq!(arredonda_pagina(4097), 8192);
}

#[test]
fn plano_da_arena_protege_o_que_nao_e_do_guest() {
    assert_eq!(plano_arena(0, false), PlanoArena { bytes: 0, so_leitura: false, ultima_sem_acesso: false });
    assert_eq!(plano_arena(8192, true), PlanoArena { bytes: 8192, so_leitura: false, ultima_sem_acesso: false });
    assert_eq!(plano_arena(8192, false), PlanoArena { bytes: 8192, so_leitura: true, ultima_sem_acesso: false });
    assert_eq!(plano_arena(32, false), PlanoArena { bytes: 4096, so_leitura: true, ultima_sem_acesso: true });
    assert_eq!(plano_arena(4097, true), PlanoArena { bytes: 8192, so_leitura: false, ultima_sem_acesso: true });
}

#[test]
fn memoria_vazia_nao_tem_regiao() {
    let m = MemoriaJit::default();
    assert!(m.regioes().is_empty());
    assert_eq!(m.read(0, 1), Err(MemError::Unmapped { addr: 0, len: 1 }));
}
