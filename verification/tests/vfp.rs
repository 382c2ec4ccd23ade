use zeebx::vfp::{acelera, assinatura, copiavel, corpo, palavra, Troca, BX_LR, LDR_PC, VFP_BASE};

fn modulo_com(rotinas: &[(&[u32], usize)], tamanho: usize) -> Vec<u8> {
    let mut m = vec![0u8; tamanho];
    for (assinatura, off) in rotinas {
        for (k, w) in assinatura.iter().enumerate() {
            m[off + 4 * k..off + 4 * k + 4].copy_from_slice(&w.to_le_bytes());
        }
    }
    m
}

/// Target of a `b`/`bl` at `off` of a module mapped at `base`.
fn destino_em(m: &[u8], base: u32, off: usize) -> u32 {
    let w = palavra(m, off);
    let desloc = (((w & 0x00ff_ffff) << 8) as i32 >> 6) as u32;
    base.wrapping_add(off as u32).wrapping_add(8).wrapping_add(desloc)
}

#[test]
fn acha_e_troca_as_rotinas_uma_vez_cada() {
    let fadd = assinatura(0);
    let fmul = assinatura(2);
    let mut m = modulo_com(&[(&fadd, 0x100), (&fmul, 0x200)], 0x400);
    let (tramp, trocas) = acelera(&mut m, 0x1_0000);
    assert_eq!(
        trocas,
        vec![
            Troca { nome: "fadd", entrada: 0x1_0100, chamadas: 0 },
            Troca { nome: "fmul", entrada: 0x1_0200, chamadas: 0 }
        ]
    );
    // Uma palavra só: `b` para o trampolim; a segunda fica como estava.
    assert_eq!(palavra(&m, 0x100) & 0xff00_0000, 0xea00_0000);
    assert_eq!(destino_em(&m, 0x1_0000, 0x100), VFP_BASE);
    assert_eq!(destino_em(&m, 0x1_0000, 0x200), VFP_BASE + 20);
    assert_eq!(palavra(&m, 0x104), fadd[1]);
    assert_eq!(tramp.novos.len(), 40);
    assert_eq!(tramp.antigos, tramp.novos);
}

#[test]
fn chamadas_apontam_direto_para_o_trampolim() {
    let fmul = assinatura(2);
    let mut m = modulo_com(&[(&fmul, 0x200)], 0x400);
    // `bl` em 0x000 e `bne` em 0x010 para 0x200; `bl` em 0x020 para outro lugar.
    let bl = |de: u32, para: u32, cond: u32| cond | (((para - de - 8) / 4) & 0x00ff_ffff);
    m[0..4].copy_from_slice(&bl(0, 0x200, 0xeb00_0000).to_le_bytes());
    m[0x10..0x14].copy_from_slice(&bl(0x10, 0x200, 0x1a00_0000).to_le_bytes());
    m[0x20..0x24].copy_from_slice(&bl(0x20, 0x300, 0xeb00_0000).to_le_bytes());
    m[4..8].copy_from_slice(&BX_LR.to_le_bytes()); // não copiável: o trecho pára aqui
    let (tramp, trocas) = acelera(&mut m, 0x1_0000);
    assert_eq!(trocas[0].chamadas, 2);
    // O `bl` vira `b` para um trampolim só dele, depois do comum (5 palavras)...
    assert_eq!(palavra(&m, 0) >> 24, 0xea, "bl vira b");
    assert_eq!(destino_em(&m, 0x1_0000, 0), VFP_BASE + 20);
    // ...que faz a conta e volta com `b` para a instrução seguinte à chamada.
    let t = &tramp.novos[20..];
    assert_eq!(t.len(), 20);
    assert_eq!(palavra(t, 8), corpo(2)[2], "a conta");
    assert_eq!(destino_em(t, VFP_BASE + 20, 16), 0x1_0004, "volta depois do bl");
    // O `bne` é salto, não chamada: vai ao trampolim comum, que volta pelo `lr`.
    assert_eq!(destino_em(&m, 0x1_0000, 0x10), VFP_BASE);
    assert_eq!(palavra(&m, 0x10) >> 24, 0x1a, "continua bne");
    assert_eq!(destino_em(&m, 0x1_0000, 0x20), 0x1_0300, "a outra chamada fica");
}

#[test]
fn trecho_reto_depois_da_chamada_vai_junto_e_embute_a_proxima_conta() {
    let fmul = assinatura(2);
    let mut m = modulo_com(&[(&fmul, 0x200)], 0x400);
    let bl = |de: u32, para: u32| 0xeb00_0000 | (((para - de - 8) / 4) & 0x00ff_ffff);
    let codigo = [
        bl(0, 0x200),
        0xe594_1000, // ldr r1, [r4]
        bl(8, 0x200),
        0xe585_0000, // str r0, [r5]
        0xe59f_0008, // ldr r0, [pc, #8]: lê o PC, a cópia pára aqui
    ];
    for (k, w) in codigo.iter().enumerate() {
        m[4 * k..4 * k + 4].copy_from_slice(&w.to_le_bytes());
    }
    let (tramp, trocas) = acelera(&mut m, 0x1_0000);
    assert_eq!(tramp.embutidas, 1);
    assert_eq!(trocas[0].chamadas, 2, "as duas chamadas reescritas");
    // O trampolim da primeira: conta, ldr, conta, str, e volta ao `ldr r0, [pc]`.
    let t = &tramp.novos[20..];
    let corpo_fmul = corpo(2);
    let fmul = &corpo_fmul[..4];
    let esperado: Vec<u32> =
        fmul.iter().chain(&[0xe594_1000]).chain(fmul).chain(&[0xe585_0000]).copied().collect();
    for (k, w) in esperado.iter().enumerate() {
        assert_eq!(palavra(t, 4 * k), *w, "palavra {k}");
    }
    assert_eq!(destino_em(t, VFP_BASE + 20, 4 * esperado.len()), 0x1_0010);
}

#[test]
fn copiavel_recusa_o_que_depende_do_endereco() {
    for (w, ok, o_que) in [
        (0xe28f_0004, false, "add r0, pc, #4"),
        (0xe1a0_f00e, false, "mov pc, lr"),
        (0xe59f_0000, false, "ldr r0, [pc]"),
        (0xe92d_4010, true, "push {r4, lr}"),
        (0xe8bd_8010, false, "pop {r4, pc}"),
        (0xe6ff_2072, true, "uxth r2, r2"),
        (0xe12f_ff1e, false, "bx lr"),
        (0xe000_0291, true, "mul r0, r1, r2"),
        (0xe350_0000, true, "cmp r0, #0"),
        (0x13a0_1001, true, "movne r1, #1"),
        (0xe328_f000, false, "msr cpsr_f, #0"),
        (0xef00_0000, false, "svc 0"),
        (0xee30_0a20, false, "vadd.f32"),
        (0xea00_0000, false, "b"),
        (0xe1d0_00b2, true, "ldrh r0, [r0, #2]"),
        (0xe10f_0000, false, "mrs r0, cpsr"),
    ] {
        assert_eq!(copiavel(w), ok, "{o_que}");
    }
}

#[test]
fn quem_salta_para_a_segunda_palavra_nao_impede_a_troca_mas_sai_do_leiaute_antigo() {
    let fmul = assinatura(2);
    let mut m = modulo_com(&[(&fmul, 0x200)], 0x400);
    // `b` em 0x000 para 0x204: deslocamento (0x204 - 8) / 4.
    let b: u32 = 0xea00_0000 | ((0x204 - 8) / 4);
    m[0..4].copy_from_slice(&b.to_le_bytes());
    let (tramp, trocas) = acelera(&mut m, 0x1_0000);
    assert_eq!(trocas.len(), 1);
    assert_eq!(palavra(&m, 0x204), fmul[1], "a segunda palavra é código vivo");
    assert_eq!(destino_em(&m, 0x1_0000, 0), 0x1_0204, "o salto para o meio fica");
    assert!(tramp.antigos.is_empty(), "a versão do `ldr pc` não trocava esta");
}

#[test]
fn longe_demais_para_um_b_usa_a_troca_de_duas_palavras() {
    let fmul = assinatura(2);
    let mut m = modulo_com(&[(&fmul, 0x200)], 0x400);
    let base = 0x0800_0000; // onde moram os módulos de extensão: 112 MB da região
    let (_, trocas) = acelera(&mut m, base);
    assert_eq!(trocas.len(), 1);
    assert_eq!(palavra(&m, 0x200), LDR_PC);
    assert_eq!(palavra(&m, 0x204), VFP_BASE);
}

#[test]
fn comparacao_em_duas_copias_troca_as_duas() {
    let fcmp = assinatura(9);
    let mut m = modulo_com(&[(&fcmp, 0x100), (&fcmp, 0x300)], 0x500);
    let (_, trocas) = acelera(&mut m, 0x1_0000);
    assert_eq!(trocas.len(), 2);
    assert!(trocas.iter().all(|t| t.nome == "fcmp"));
}

#[test]
fn duas_copias_nao_trocam_nenhuma() {
    let fmul = assinatura(2);
    let mut m = modulo_com(&[(&fmul, 0x100), (&fmul, 0x300)], 0x500);
    let (_, trocas) = acelera(&mut m, 0x1_0000);
    assert!(trocas.is_empty());
}
