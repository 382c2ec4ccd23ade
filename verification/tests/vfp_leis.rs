use zeebx::vfp::{acelera, assinatura, assinaturas_para_teste, copiavel, corpo, desvio, destinos, mascara, palavra, procura, Troca, BX_LR, VFP_BASE};

fn alvo(pc: u32, w: u32) -> u32 {
    let desloc = (((w & 0x00ff_ffff) << 8) as i32 >> 6) as u32;
    pc.wrapping_add(8).wrapping_add(desloc)
}

#[test]
fn desvio_codifica_o_alvo_pedido() {
    for (pc, para) in [(0x1_0000u32, 0x1_0100u32), (0x1_0100, 0x1_0000), (0x0100_0000, 0x0200_0000 - 4), (0x0300_0000, 0x0100_0008)] {
        let w = desvio(pc, para, 0xeb00_0000).unwrap();
        assert_eq!(w & 0xff00_0000, 0xeb00_0000);
        assert_eq!(alvo(pc, w), para);
    }
    assert_eq!(desvio(0x1000, 0x1000 + 8, 0xea00_0000), Some(0xea00_0000));
    assert_eq!(desvio(0x1000, 0x1000 + 4, 0xea00_0000), Some(0xeaff_ffff));
    assert_eq!(desvio(0, 0x0200_0008, 0xea00_0000), None, "longe demais para frente");
    assert_eq!(desvio(0x0200_0000, 8, 0xea00_0000), Some(0xea80_0000), "o mais longe para trás");
    assert_eq!(desvio(0, 0x0200_0004, 0xea00_0000), Some(0xea7f_ffff), "o mais longe para frente");
    assert_eq!(desvio(0x1000, 0x1002, 0xea00_0000), None, "desalinhado");
}

#[test]
fn mascara_ignora_o_deslocamento_dos_desvios() {
    assert_eq!(mascara(0x1a12_3456), 0x1a00_0000);
    assert_eq!(mascara(0xeb00_0001), mascara(0xebff_ffff));
    assert_eq!(mascara(0xfa12_3456), 0xfa12_3456, "BLX imediato fica inteiro");
    assert_eq!(mascara(0xe1a0_f00e), 0xe1a0_f00e);
}

#[test]
fn destinos_arm_e_thumb() {
    let base = 0x1_0000u32;
    let mut m = vec![0u8; 0x40];
    let bl = 0xeb00_0000u32 | ((0x20 - 8) / 4);
    m[0..4].copy_from_slice(&bl.to_le_bytes());
    // BLX imediato com o bit H: meia palavra a mais.
    let blx = 0xfb00_0000u32 | ((0x30 - 4 - 8) / 4);
    m[4..8].copy_from_slice(&blx.to_le_bytes());
    // BL Thumb em 0x10 para trás: 0x10 + 4 - 0x100.
    let pares: [u16; 2] = [0xf000 | 0x7ff, 0xf800 | 0x780];
    m[0x10..0x12].copy_from_slice(&pares[0].to_le_bytes());
    m[0x12..0x14].copy_from_slice(&pares[1].to_le_bytes());
    let d = destinos(&m, base);
    assert!(d.contains(&(base + 0x20)));
    assert!(d.contains(&(base + 0x30 + 2)), "BLX: mais meia palavra");
    let alto = ((u32::from(pares[0] & 0x7ff) << 21) as i32 >> 9) as u32;
    let baixo = u32::from(pares[1] & 0x7ff) << 1;
    let esperado = (base + 0x10 + 4).wrapping_add(alto).wrapping_add(baixo);
    assert!(d.contains(&esperado));
    assert_eq!(esperado, base + 0x14 - 0x1000 + 0xf00);
}

#[test]
fn procura_acha_ate_no_fim_do_modulo() {
    let sig = assinatura(7);
    let mut m = vec![0u8; 4 * sig.len() + 8];
    for (k, w) in sig.iter().enumerate() {
        m[8 + 4 * k..12 + 4 * k].copy_from_slice(&w.to_le_bytes());
    }
    assert_eq!(procura(&m, &sig), vec![8]);
    // Com o deslocamento do desvio diferente, ainda casa.
    m[8 + 8..8 + 12].copy_from_slice(&0x5a12_3456u32.to_le_bytes());
    assert_eq!(procura(&m, &sig), vec![8]);
    m.truncate(m.len() - 1);
    assert_eq!(procura(&m, &sig), Vec::<usize>::new());
}

#[test]
fn sem_nada_achado_nada_muda() {
    let mut m: Vec<u8> = (0..=255u8).cycle().take(0x800).collect();
    let antes = m.clone();
    let (tramp, trocas) = acelera(&mut m, 0x1_0000);
    assert!(trocas.is_empty());
    assert!(tramp.novos.is_empty());
    assert!(tramp.antigos.is_empty());
    assert_eq!(tramp.embutidas, 0);
    assert_eq!(m, antes);
}

#[test]
fn a_conversao_sem_sinal_vem_com_a_com_sinal() {
    let fflt = assinatura(4);
    let mut m = vec![0u8; 0x200];
    let off = 0x40usize;
    for (k, w) in fflt.iter().enumerate() {
        m[off + 4 * k..off + 4 * k + 4].copy_from_slice(&w.to_le_bytes());
    }
    let u = off + 52;
    m[u..u + 4].copy_from_slice(&0xe3a0_2101u32.to_le_bytes());
    // `b` de volta para a entrada + 12.
    let de = (u + 4) as u32;
    let para = (off + 12) as u32;
    let b = 0xea00_0000u32 | (((para as i64 - de as i64 - 8) / 4) as u32 & 0x00ff_ffff);
    m[u + 4..u + 8].copy_from_slice(&b.to_le_bytes());
    let (tramp, trocas) = acelera(&mut m, 0x1_0000);
    assert_eq!(
        trocas,
        vec![
            Troca { nome: "fflt", entrada: 0x1_0040, chamadas: 0 },
            Troca { nome: "ffltu", entrada: 0x1_0040 + 52, chamadas: 0 }
        ]
    );
    assert_eq!(alvo(0x1_0040 + 52, palavra(&m, u)), VFP_BASE + 16);
    assert_eq!(tramp.novos.len(), 32);
    assert_eq!(tramp.antigos, tramp.novos, "fflt está no leiaute antigo e leva a ffltu junto");
    for (k, w) in corpo(11).iter().enumerate() {
        assert_eq!(palavra(&tramp.novos, 16 + 4 * k), *w);
    }
}

#[test]
fn trampolins_guardam_os_corpos_em_ordem() {
    let fsqrt = assinatura(8);
    let frsb = assinatura(7);
    let mut m = vec![0u8; 0x400];
    for (sig, off) in [(&frsb, 0x300usize), (&fsqrt, 0x100usize)] {
        for (k, w) in sig.iter().enumerate() {
            m[off + 4 * k..off + 4 * k + 4].copy_from_slice(&w.to_le_bytes());
        }
    }
    let (tramp, trocas) = acelera(&mut m, 0x1_0000);
    assert_eq!(trocas.iter().map(|t| t.nome).collect::<Vec<_>>(), vec!["frsb", "fsqrt"]);
    let palavras: Vec<u32> = (0..tramp.novos.len() / 4).map(|k| palavra(&tramp.novos, 4 * k)).collect();
    let esperado: Vec<u32> = corpo(7).into_iter().chain(corpo(8)).collect();
    assert_eq!(palavras, esperado);
    assert_eq!(*palavras.last().unwrap(), BX_LR);
    assert!(tramp.antigos.is_empty(), "frsb e fsqrt não existiam no leiaute antigo");
}

#[test]
fn as_assinaturas_para_teste_seguem_a_tabela() {
    let todas = assinaturas_para_teste();
    assert_eq!(todas.len(), 11);
    for (k, sig) in todas.iter().enumerate() {
        assert_eq!(*sig, assinatura(k));
    }
    assert_eq!(todas[0][0], 0xe130_0001);
    assert_eq!(todas[10].len(), 21);
}

#[test]
fn instrucao_copiavel_nao_escreve_o_pc() {
    let mut x: u32 = 0x1234_5678;
    let mut copiaveis = 0;
    for _ in 0..200_000 {
        x ^= x << 13;
        x ^= x >> 17;
        x ^= x << 5;
        if copiavel(x) {
            copiaveis += 1;
            assert_ne!((x >> 12) & 0xf, 0xf, "{x:#010x}");
            assert!((x >> 25) & 7 <= 4, "{x:#010x}");
            assert_ne!(x >> 28, 0xf, "{x:#010x}");
        }
    }
    assert!(copiaveis > 1000);
}

#[test]
fn modulo_de_mais_de_16_mib_tambem_e_acelerado() {
    // Uma `fmul` além dos primeiros 16 MiB do módulo: continua ao alcance de um `b`.
    let fmul = assinatura(2);
    let off = 0x0100_0100usize;
    let mut m = vec![0u8; off + 0x400];
    for (k, w) in fmul.iter().enumerate() {
        m[off + 4 * k..off + 4 * k + 4].copy_from_slice(&w.to_le_bytes());
    }
    let (tramp, trocas) = acelera(&mut m, 0x1_0000);
    assert_eq!(trocas, vec![Troca { nome: "fmul", entrada: 0x1_0000 + off as u32, chamadas: 0 }]);
    assert_eq!(alvo(0x1_0000 + off as u32, palavra(&m, off)), VFP_BASE);
    assert_eq!(palavra(&m, off + 4), fmul[1]);
    assert_eq!(tramp.novos.len(), 20);
}

#[test]
fn chamada_longe_demais_dos_trampolins_fica_como_estava() {
    // Módulo mapeado a 112 MB da região: nem o trampolim comum nem um próprio cabem num `bl`;
    // a chamada fica e passa pela entrada, trocada por `ldr pc`.
    let fmul = assinatura(2);
    let mut m = vec![0u8; 0x400];
    for (k, w) in fmul.iter().enumerate() {
        m[0x200 + 4 * k..0x200 + 4 * k + 4].copy_from_slice(&w.to_le_bytes());
    }
    let bl: u32 = 0xeb00_0000 | ((0x200 - 8) / 4);
    m[0..4].copy_from_slice(&bl.to_le_bytes());
    let (_, trocas) = acelera(&mut m, 0x0800_0000);
    assert_eq!(trocas.len(), 1);
    assert_eq!(trocas[0].chamadas, 0);
    assert_eq!(palavra(&m, 0), bl);
}
