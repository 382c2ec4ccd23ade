//! What holds of the rewrite as a whole: how branches are found and made, what a replacement
//! writes, and what is left alone.

use vstd::prelude::*;
use crate::vfp::arm::{
    alvo_arm, copiavel_spec, desvio_spec, destinos_spec, e_desvio_arm, endereco, escreve_spec,
    lemma_copiavel_nao_toca_o_pc, lemma_desvio_decodifica, lemma_escreve_le, lemma_soma32_junta, mascara_spec, palavra_spec,
    soma32,
};
use crate::vfp::busca::{achados_ate, casa, lemma_achados_casam, procura_spec};
use crate::vfp::modelo::passo_comparacao;
use crate::vfp::modelo::{
    acelera_spec, aplica, apos_chamadas, apos_comparacoes, apos_rotinas, bytes_da_palavra,
    bytes_de, estado_inicial, estende_spec, fase_entradas, lemma_mapa_spec, mapa_spec, passo_chamada,
    passo_rotina, proximo_trampolim, tem_ffltu, troca_spec, trocas_em, Estado, TRECHO_MAXIMO,
    VFP_BASE,
};
use crate::vfp::rotinas::{
    assinatura_spec, corpo_spec, lemma_tamanhos_da_tabela, BX_LR, FFLT, FFLTU, FFLTU_DESLOCAMENTO,
    LDR_PC, NUM_CORPOS, NUM_ROTINAS, PRIMEIRA_COMPARACAO, ROTINAS_ANTIGAS,
};

verus! {

/// The signature of a routine does not depend on where it was linked: two B/BL with the same
/// condition and kind mask to the same word, whatever their offsets.
pub proof fn lemma_mascara_ignora_deslocamento(w: u32, x: u32)
    requires
        e_desvio_arm(w),
        x < 0x100_0000,
    ensures
        mascara_spec((w & 0xff00_0000) | x) == mascara_spec(w),
{
    assert((((w & 0xff00_0000) | x) & 0x0e00_0000 == w & 0x0e00_0000) && (((w & 0xff00_0000) | x)
        >> 28u32 == w >> 28u32) && (((w & 0xff00_0000) | x) & 0xff00_0000 == w & 0xff00_0000)) by (bit_vector)
        requires
            x < 0x100_0000,
    ;
}

/// `procura` finds every place where the signature matches and nothing else.
pub proof fn lemma_procura_acha_tudo(s: Seq<u8>, sig: Seq<u32>, i: int)
    requires
        s.len() <= usize::MAX,
        sig.len() > 0,
        0 <= i <= usize::MAX,
    ensures
        procura_spec(s, sig).contains(i as usize) <==> casa(s, sig, i),
{
    lemma_achados_ate(s, sig, s.len() as int, i);
}

proof fn lemma_achados_ate(s: Seq<u8>, sig: Seq<u32>, k: int, i: int)
    requires
        s.len() <= usize::MAX,
        0 <= i <= usize::MAX,
        k <= s.len(),
    ensures
        achados_ate(s, sig, k).contains(i as usize) <==> (casa(s, sig, i) && i < k),
    decreases k,
{
    if k > 0 {
        lemma_achados_ate(s, sig, k - 1, i);
        lemma_achados_casam(s, sig, k - 1);
        let a = achados_ate(s, sig, k - 1);
        if casa(s, sig, k - 1) {
            let b = a.push((k - 1) as usize);
            assert(b[a.len() as int] == (k - 1) as usize);
            if b.contains(i as usize) {
                let j = choose|j: int| 0 <= j < b.len() && b[j] == i as usize;
                if j < a.len() {
                    assert(a[j] == b[j]);
                    assert(a.contains(i as usize));
                }
            }
            if a.contains(i as usize) {
                let j = choose|j: int| 0 <= j < a.len() && a[j] == i as usize;
                assert(b[j] == a[j]);
            }
        } else if casa(s, sig, i) && i == k - 1 {
        }
        if casa(s, sig, i) && i < k {
            assert(i + 4 * sig.len() <= s.len());
        }
    } else {
        if casa(s, sig, i) {
            assert(i >= 0);
        }
    }
}

/// The trampoline bytes hold the words one after the other: four bytes each, and the word at
/// byte `4k` read back is word `k`.
pub proof fn lemma_bytes_das_palavras(ws: Seq<u32>, k: int)
    requires
        0 <= k < ws.len(),
    ensures
        bytes_de(ws).len() == 4 * ws.len(),
        palavra_spec(bytes_de(ws), 4 * k) == ws[k],
    decreases ws.len(),
{
    lemma_bytes_tamanho(ws);
    let w = ws.last();
    let antes = ws.drop_last();
    lemma_bytes_tamanho(antes);
    if k < ws.len() - 1 {
        lemma_bytes_das_palavras(antes, k);
        let b = bytes_de(ws);
        assert(b == bytes_de(antes) + bytes_da_palavra(w));
        assert(b[4 * k] == bytes_de(antes)[4 * k]);
        assert(b[4 * k + 1] == bytes_de(antes)[4 * k + 1]);
        assert(b[4 * k + 2] == bytes_de(antes)[4 * k + 2]);
        assert(b[4 * k + 3] == bytes_de(antes)[4 * k + 3]);
    } else {
        let b = bytes_de(ws);
        assert(b == bytes_de(antes) + bytes_da_palavra(w));
        assert(((((w & 0xff) as u8) as u32) | (((((w >> 8u32) & 0xff) as u8) as u32) << 8u32) | (
        ((((w >> 16u32) & 0xff) as u8) as u32) << 16u32) | (((((w >> 24u32) & 0xff) as u8) as u32)
            << 24u32)) == w) by (bit_vector);
    }
}

/// Four bytes per word.
pub proof fn lemma_bytes_tamanho(ws: Seq<u32>)
    ensures
        bytes_de(ws).len() == 4 * ws.len(),
    decreases ws.len(),
{
    if ws.len() > 0 {
        lemma_bytes_tamanho(ws.drop_last());
    }
}

/// A replacement takes one word: when the trampoline is in reach of a `b`, the module changes
/// only at the entry, which becomes an unconditional `b` to the start of the routine's new
/// trampoline; the rest of the routine is left intact. Out of reach, with the second word free,
/// the entry becomes `ldr pc, [pc, #-4]` followed by the trampoline's address.
pub proof fn lemma_troca_ocupa_uma_palavra(
    e: Estado,
    alvos: Set<u32>,
    base: u32,
    rot: usize,
    off: int,
    antiga: bool,
)
    requires
        0 <= off,
        off + 8 <= e.modulo.len(),
    ensures
        ({
            let entrada = endereco(base, off);
            let destino = proximo_trampolim(e.novos);
            let depois = troca_spec(e, alvos, base, rot, off, antiga).0;
            match desvio_spec(entrada, destino, 0xea00_0000) {
                Some(b) => {
                    &&& depois.modulo == escreve_spec(e.modulo, off, b)
                    &&& palavra_spec(depois.modulo, off) & 0xff00_0000 == 0xea00_0000
                    &&& alvo_arm(entrada, palavra_spec(depois.modulo, off)) == destino
                    &&& forall|j: int| 0 <= j < e.modulo.len() && (j < off || j >= off + 4) ==> #[trigger] depois.modulo[j] == e.modulo[j]
                },
                None => {
                    ||| depois == e
                    ||| {
                        &&& palavra_spec(depois.modulo, off) == LDR_PC
                        &&& palavra_spec(depois.modulo, off + 4) == destino
                        &&& forall|j: int| 0 <= j < e.modulo.len() && (j < off || j >= off + 8) ==> #[trigger] depois.modulo[j] == e.modulo[j]
                    }
                },
            }
        }),
{
    let entrada = endereco(base, off);
    let destino = proximo_trampolim(e.novos);
    match desvio_spec(entrada, destino, 0xea00_0000) {
        Some(b) => {
            lemma_escreve_le(e.modulo, off, b);
            assert(0xea00_0000u32 & 0x00ff_ffffu32 == 0) by (bit_vector);
            lemma_desvio_decodifica(entrada, destino, 0xea00_0000);
        },
        None => {
            let m1 = escreve_spec(e.modulo, off, LDR_PC);
            lemma_escreve_le(e.modulo, off, LDR_PC);
            lemma_escreve_le(m1, off + 4, destino);
            let m2 = escreve_spec(m1, off + 4, destino);
            assert(palavra_spec(m2, off) == palavra_spec(m1, off)) by {
                assert(m2[off] == m1[off]);
                assert(m2[off + 1] == m1[off + 1]);
                assert(m2[off + 2] == m1[off + 2]);
                assert(m2[off + 3] == m1[off + 3]);
            }
        },
    }
}


/// `b` comes from `a` by adding entries to the report, or is `a` itself; the record of
/// replaced entries and the report stay the same length.
pub open spec fn cresce(a: Estado, b: Estado) -> bool {
    &&& b.trocas.len() >= a.trocas.len()
    &&& (b.trocas.len() == a.trocas.len() ==> b == a)
    &&& (a.redireciona.len() == a.trocas.len() ==> b.redireciona.len() == b.trocas.len())
}

proof fn lemma_cresce_transitivo(a: Estado, b: Estado, c: Estado)
    requires
        cresce(a, b),
        cresce(b, c),
    ensures
        cresce(a, c),
{
}

proof fn lemma_troca_cresce(e: Estado, alvos: Set<u32>, base: u32, rot: usize, off: int, antiga: bool)
    ensures
        cresce(e, troca_spec(e, alvos, base, rot, off, antiga).0),
{
}

proof fn lemma_passo_rotina_cresce(e: Estado, alvos: Set<u32>, base: u32, i: int)
    ensures
        cresce(e, passo_rotina(e, alvos, base, i)),
{
    let achados = procura_spec(e.modulo, assinatura_spec(i));
    if achados.len() == 1 {
        let off = achados[0] as int;
        let (e1, antiga) = troca_spec(e, alvos, base, i as usize, off, i < ROTINAS_ANTIGAS);
        lemma_troca_cresce(e, alvos, base, i as usize, off, i < ROTINAS_ANTIGAS);
        lemma_troca_cresce(e1, alvos, base, FFLTU, off + FFLTU_DESLOCAMENTO, antiga);
    }
}

proof fn lemma_apos_rotinas_cresce(e: Estado, alvos: Set<u32>, base: u32, n: int)
    ensures
        cresce(e, apos_rotinas(e, alvos, base, n)),
    decreases n,
{
    if n > 0 {
        lemma_apos_rotinas_cresce(e, alvos, base, n - 1);
        let a = apos_rotinas(e, alvos, base, n - 1);
        lemma_passo_rotina_cresce(a, alvos, base, n - 1);
        lemma_cresce_transitivo(e, a, apos_rotinas(e, alvos, base, n));
    }
}

proof fn lemma_trocas_em_cresce(e: Estado, alvos: Set<u32>, base: u32, c: int, lista: Seq<usize>, k: int)
    ensures
        cresce(e, trocas_em(e, alvos, base, c, lista, k)),
    decreases k,
{
    if k > 0 {
        lemma_trocas_em_cresce(e, alvos, base, c, lista, k - 1);
        let a = trocas_em(e, alvos, base, c, lista, k - 1);
        lemma_troca_cresce(a, alvos, base, c as usize, lista[k - 1] as int, false);
        lemma_cresce_transitivo(e, a, trocas_em(e, alvos, base, c, lista, k));
    }
}

proof fn lemma_apos_comparacoes_cresce(e: Estado, alvos: Set<u32>, base: u32, n: int)
    ensures
        cresce(e, apos_comparacoes(e, alvos, base, n)),
    decreases n,
{
    if n > 0 {
        lemma_apos_comparacoes_cresce(e, alvos, base, n - 1);
        let a = apos_comparacoes(e, alvos, base, n - 1);
        let c = PRIMEIRA_COMPARACAO + n - 1;
        let achados = procura_spec(a.modulo, assinatura_spec(c));
        lemma_trocas_em_cresce(a, alvos, base, c, achados, achados.len() as int);
        lemma_cresce_transitivo(e, a, apos_comparacoes(e, alvos, base, n));
    }
}

/// Rewriting the calls keeps the report's length.
proof fn lemma_chamadas_mantem_relatorio(e: Estado, orig: Seq<u8>, base: u32, mapa: Map<u32, (u32, usize, usize)>, k: int)
    requires
        forall|x: u32| #[trigger] mapa.contains_key(x) ==> mapa[x].2 < e.trocas.len(),
    ensures
        apos_chamadas(e, orig, base, mapa, k).trocas.len() == e.trocas.len(),
    decreases k,
{
    reveal(passo_chamada);
    if k > 0 {
        lemma_chamadas_mantem_relatorio(e, orig, base, mapa, k - 1);
    }
}

/// With no entry replaced, the calls are left alone.
proof fn lemma_chamadas_sem_mapa(e: Estado, orig: Seq<u8>, base: u32, k: int)
    ensures
        apos_chamadas(e, orig, base, Map::empty(), k) == e,
    decreases k,
{
    reveal(passo_chamada);
    if k > 0 {
        lemma_chamadas_sem_mapa(e, orig, base, k - 1);
    }
}

/// With nothing found, everything comes back empty and the module stays as it was: when the
/// report is empty, the module is the one given, no trampoline word was made and no call was
/// inlined.
pub proof fn lemma_sem_troca_nada_muda(s: Seq<u8>, base: u32)
    ensures
        acelera_spec(s, base).trocas.len() == 0 ==> acelera_spec(s, base) == estado_inicial(s),
{
    let e0 = estado_inicial(s);
    let alvos = destinos_spec(s, base);
    let e9 = apos_rotinas(e0, alvos, base, NUM_ROTINAS as int);
    lemma_apos_rotinas_cresce(e0, alvos, base, NUM_ROTINAS as int);
    lemma_apos_comparacoes_cresce(e9, alvos, base, 2);
    let e1 = fase_entradas(s, base);
    lemma_cresce_transitivo(e0, e9, e1);
    lemma_mapa_spec(e1.redireciona);
    lemma_chamadas_mantem_relatorio(e1, e1.modulo, base, mapa_spec(e1.redireciona), s.len() as int);
    if acelera_spec(s, base).trocas.len() == 0 {
        assert(e1 == e0);
        assert(mapa_spec(e1.redireciona) == Map::<u32, (u32, usize, usize)>::empty());
        lemma_chamadas_sem_mapa(e1, e1.modulo, base, s.len() as int);
    }
}


/// The copy after a call stops at a word boundary, no further than its limit allows and
/// never past the end of the module.
proof fn lemma_estende_limites(
    orig: Seq<u8>,
    base: u32,
    off: int,
    mapa: Map<u32, (u32, usize, usize)>,
    seq: Seq<u32>,
    emb: int,
    resta: nat,
)
    requires
        off <= orig.len(),
    ensures
        off <= estende_spec(orig, base, off, mapa, seq, emb, resta).0 <= off + 4 * resta,
        estende_spec(orig, base, off, mapa, seq, emb, resta).0 <= orig.len(),
        (estende_spec(orig, base, off, mapa, seq, emb, resta).0 - off) % 4 == 0,
    decreases resta,
{
    if resta > 0 && off + 4 <= orig.len() {
        let w = palavra_spec(orig, off);
        if w >> 24u32 == 0xeb {
            let alvo = alvo_arm(endereco(base, off), w);
            if mapa.contains_key(alvo) && corpo_spec(mapa[alvo].1 as int).last() == BX_LR {
                lemma_estende_limites(orig, base, off + 4, mapa, seq + corpo_spec(mapa[alvo].1 as int).drop_last(), emb + 1, (resta - 1) as nat);
            }
        } else if copiavel_spec(w) {
            lemma_estende_limites(orig, base, off + 4, mapa, seq.push(w), emb, (resta - 1) as nat);
        }
    }
}

/// The copy after a call adds at most four words per step, whatever it started with.
proof fn lemma_estende_tamanho(
    orig: Seq<u8>,
    base: u32,
    off: int,
    mapa: Map<u32, (u32, usize, usize)>,
    seq: Seq<u32>,
    emb: int,
    resta: nat,
)
    requires
        forall|x: u32| #[trigger] mapa.contains_key(x) ==> mapa[x].1 < NUM_CORPOS,
    ensures
        estende_spec(orig, base, off, mapa, seq, emb, resta).2.len() <= seq.len() + 4 * resta,
    decreases resta,
{
    lemma_tamanhos_da_tabela();
    if resta > 0 && off + 4 <= orig.len() {
        let w = palavra_spec(orig, off);
        if w >> 24u32 == 0xeb {
            let alvo = alvo_arm(endereco(base, off), w);
            if mapa.contains_key(alvo) && corpo_spec(mapa[alvo].1 as int).last() == BX_LR {
                let c = corpo_spec(mapa[alvo].1 as int).drop_last();
                lemma_estende_tamanho(orig, base, off + 4, mapa, seq + c, emb + 1, (resta - 1) as nat);
            }
        } else if copiavel_spec(w) {
            lemma_estende_tamanho(orig, base, off + 4, mapa, seq.push(w), emb, (resta - 1) as nat);
        }
    }
}

/// What a rewritten call became: the word at `i` is now `nw`, either a branch with the same
/// condition and kind to the routine's shared trampoline, or, for a `bl`, a `b` with the same
/// condition to a trampoline of its own appended to the new area, whose last word is an
/// unconditional `b` back into the module after the call, at most `TRECHO_MAXIMO`
/// instructions after it, and right after it when the call is conditional (nothing after a
/// conditional call is copied).
pub open spec fn chamada_reescrita(e: Estado, d: Estado, w: u32, pc: u32, comum: u32, nw: u32) -> bool {
    ||| (alvo_arm(pc, nw) == comum && nw & 0xff00_0000 == w & 0xff00_0000)
    ||| {
        &&& w & 0x0100_0000 != 0
        &&& nw & 0xff00_0000 == (w & 0xf000_0000) | 0x0a00_0000
        &&& alvo_arm(pc, nw) == proximo_trampolim(e.novos)
        &&& d.novos.len() > e.novos.len()
        &&& d.novos.last() & 0xff00_0000 == 0xea00_0000
        &&& pc + 4 <= alvo_arm(proximo_trampolim(d.novos.drop_last()), d.novos.last()) <= pc + 4 + 4 * TRECHO_MAXIMO
        &&& (w >> 28u32 != 0xe ==> alvo_arm(proximo_trampolim(d.novos.drop_last()), d.novos.last()) == pc + 4)
    }
}

/// The last word of a trampoline appended to the area sits right after the words before it.
proof fn lemma_volta_no_fim(novos: Seq<u32>, seq: Seq<u32>, volta: u32)
    ensures
        proximo_trampolim((novos + seq.push(volta)).drop_last()) == soma32(proximo_trampolim(novos) as int, 4 * seq.len() as int),
{
    assert((novos + seq.push(volta)).drop_last() =~= novos + seq);
    lemma_soma32_junta(VFP_BASE as int, 4 * novos.len() as int, 4 * seq.len() as int);
}

/// The own-trampoline case of `passo_chamada`.
#[verifier::spinoff_prover]
proof fn lemma_trampolim_proprio(
    e: Estado,
    orig: Seq<u8>,
    base: u32,
    mapa: Map<u32, (u32, usize, usize)>,
    i: int,
    nw: u32,
    volta: u32,
)
    requires
        0 <= i,
        i + 4 <= orig.len(),
        base + orig.len() <= u32::MAX,
        forall|x: u32| #[trigger] mapa.contains_key(x) ==> mapa[x].1 < NUM_CORPOS,
        e_desvio_arm(palavra_spec(orig, i)),
        mapa.contains_key(alvo_arm(endereco(base, i), palavra_spec(orig, i))),
        ({
            let w = palavra_spec(orig, i);
            let pc = endereco(base, i);
            let (comum, rot, k) = mapa[alvo_arm(pc, w)];
            let corpo = corpo_spec(rot as int);
            &&& w & 0x0100_0000 != 0
            &&& corpo.last() == BX_LR
            &&& desvio_spec(pc, proximo_trampolim(e.novos), (w & 0xf000_0000) | 0x0a00_0000) == Some(nw)
            &&& ({
                let (seguinte, n, seq) = if w >> 28u32 == 0xe {
                    let (o, n, sq) = estende_spec(orig, base, i + 4, mapa, corpo.drop_last(), 0, TRECHO_MAXIMO as nat);
                    (endereco(base, o), n, sq)
                } else {
                    ((pc + 4) as u32, 0, corpo.drop_last())
                };
                desvio_spec(soma32(proximo_trampolim(e.novos) as int, 4 * seq.len() as int), seguinte, 0xea00_0000) == Some(volta)
            })
        }),
    ensures
        ({
            let w = palavra_spec(orig, i);
            let pc = endereco(base, i);
            let d = passo_chamada(e, orig, base, mapa, i);
            &&& d.modulo == escreve_spec(e.modulo, i, nw)
            &&& chamada_reescrita(e, d, w, pc, mapa[alvo_arm(pc, w)].0, nw)
        }),
{
    reveal(passo_chamada);
    let w = palavra_spec(orig, i);
    let pc = endereco(base, i);
    let (comum, rot, k) = mapa[alvo_arm(pc, w)];
    let corpo = corpo_spec(rot as int);
    let proprio = proximo_trampolim(e.novos);
    let cp = (w & 0xf000_0000) | 0x0a00_0000;
    assert(cp & 0x00ff_ffff == 0 && cp & 0xff00_0000 == cp) by (bit_vector)
        requires
            cp == (w & 0xf000_0000) | 0x0a00_0000,
    ;
    assert(0xea00_0000u32 & 0x00ff_ffffu32 == 0) by (bit_vector);
    lemma_desvio_decodifica(pc, proprio, cp);
    let (seguinte, n, seq) = if w >> 28u32 == 0xe {
        let (o, n, sq) = estende_spec(orig, base, i + 4, mapa, corpo.drop_last(), 0, TRECHO_MAXIMO as nat);
        lemma_estende_limites(orig, base, i + 4, mapa, corpo.drop_last(), 0, TRECHO_MAXIMO as nat);
        lemma_estende_tamanho(orig, base, i + 4, mapa, corpo.drop_last(), 0, TRECHO_MAXIMO as nat);
        (endereco(base, o), n, sq)
    } else {
        ((pc + 4) as u32, 0, corpo.drop_last())
    };
    lemma_tamanhos_da_tabela();
    assert(seq.len() <= 4 + 4 * TRECHO_MAXIMO);
    let fim = soma32(proprio as int, 4 * seq.len() as int);
    lemma_desvio_decodifica(fim, seguinte, 0xea00_0000);
    let novos = e.novos + seq.push(volta);
    let d = passo_chamada(e, orig, base, mapa, i);
    assert(d.novos == novos);
    lemma_volta_no_fim(e.novos, seq, volta);
}

/// Every call to a replaced entry goes straight to a trampoline, and nothing else is touched:
/// the word at byte `i` changes only when it is an ARM `b`/`bl` whose target is a replaced
/// entry, and then it is rewritten as `chamada_reescrita` says.
#[verifier::spinoff_prover]
pub proof fn lemma_chamada_vai_ao_trampolim(
    e: Estado,
    orig: Seq<u8>,
    base: u32,
    mapa: Map<u32, (u32, usize, usize)>,
    i: int,
)
    requires
        0 <= i,
        i + 4 <= orig.len(),
        base + orig.len() <= u32::MAX,
        forall|x: u32| #[trigger] mapa.contains_key(x) ==> mapa[x].1 < NUM_CORPOS,
    ensures
        ({
            let w = palavra_spec(orig, i);
            let pc = endereco(base, i);
            let alvo = alvo_arm(pc, w);
            let d = passo_chamada(e, orig, base, mapa, i);
            ||| d == e
            ||| {
                &&& e_desvio_arm(w)
                &&& mapa.contains_key(alvo)
                &&& exists|nw: u32| #[trigger] escreve_spec(e.modulo, i, nw) == d.modulo && chamada_reescrita(e, d, w, pc, mapa[alvo].0, nw)
            }
        }),
{
    reveal(passo_chamada);
    let w = palavra_spec(orig, i);
    let pc = endereco(base, i);
    let alvo = alvo_arm(pc, w);
    let d = passo_chamada(e, orig, base, mapa, i);
    if e_desvio_arm(w) && mapa.contains_key(alvo) {
        let (comum, rot, k) = mapa[alvo];
        let corpo = corpo_spec(rot as int);
        let proprio = proximo_trampolim(e.novos);
        let so_dele = w & 0x0100_0000 != 0 && corpo.last() == BX_LR;
        let cd = w & 0xff00_0000;
        let cp = (w & 0xf000_0000) | 0x0a00_0000;
        assert(cd & 0x00ff_ffff == 0 && cd & 0xff00_0000 == cd) by (bit_vector)
            requires
                cd == w & 0xff00_0000,
        ;
        let direto = desvio_spec(pc, comum, cd);
        let ida = if so_dele { desvio_spec(pc, proprio, cp) } else { None };
        let (seguinte, n, seq) = if w >> 28u32 == 0xe {
            let (o, n, sq) = estende_spec(orig, base, i + 4, mapa, corpo.drop_last(), 0, TRECHO_MAXIMO as nat);
            (endereco(base, o), n, sq)
        } else {
            ((pc + 4) as u32, 0, corpo.drop_last())
        };
        let volta = desvio_spec(soma32(proprio as int, 4 * seq.len() as int), seguinte, 0xea00_0000);
        if ida is Some && volta is Some {
            lemma_trampolim_proprio(e, orig, base, mapa, i, ida->0, volta->0);
            assert(escreve_spec(e.modulo, i, ida->0) == d.modulo);
        } else {
            assert(d == aplica(e, i, direto, k as int));
            if direto is Some {
                lemma_desvio_decodifica(pc, comum, cd);
                assert(escreve_spec(e.modulo, i, direto->0) == d.modulo);
                assert(chamada_reescrita(e, d, w, pc, comum, direto->0));
            }
        }
    }
}


/// A call step only appends to the new trampoline area and keeps the report's length.
proof fn lemma_passo_chamada_acrescenta(
    e: Estado,
    orig: Seq<u8>,
    base: u32,
    mapa: Map<u32, (u32, usize, usize)>,
    i: int,
)
    requires
        forall|x: u32| #[trigger] mapa.contains_key(x) ==> mapa[x].2 < e.trocas.len(),
    ensures
        passo_chamada(e, orig, base, mapa, i).novos.len() >= e.novos.len(),
        passo_chamada(e, orig, base, mapa, i).novos.subrange(0, e.novos.len() as int) == e.novos,
        passo_chamada(e, orig, base, mapa, i).trocas.len() == e.trocas.len(),
{
    reveal(passo_chamada);
    let d = passo_chamada(e, orig, base, mapa, i);
    assert(d.novos.subrange(0, e.novos.len() as int) =~= e.novos);
}

/// A call to a replaced entry whose shared trampoline is in reach is always rewritten: the
/// step counts it in the report, so the state does change.
proof fn lemma_passo_chamada_muda(
    e: Estado,
    orig: Seq<u8>,
    base: u32,
    mapa: Map<u32, (u32, usize, usize)>,
    i: int,
)
    requires
        e_desvio_arm(palavra_spec(orig, i)),
        mapa.contains_key(alvo_arm(endereco(base, i), palavra_spec(orig, i))),
        mapa[alvo_arm(endereco(base, i), palavra_spec(orig, i))].2 < e.trocas.len(),
        desvio_spec(
            endereco(base, i),
            mapa[alvo_arm(endereco(base, i), palavra_spec(orig, i))].0,
            palavra_spec(orig, i) & 0xff00_0000,
        ) is Some,
    ensures
        passo_chamada(e, orig, base, mapa, i) != e,
{
    reveal(passo_chamada);
    let w = palavra_spec(orig, i);
    let k = mapa[alvo_arm(endereco(base, i), w)].2 as int;
    let d = passo_chamada(e, orig, base, mapa, i);
    let c = e.trocas[k].chamadas;
    assert((c + 1) as u32 != c) by (bit_vector);
    assert(d.trocas[k].chamadas != c);
}

/// What a word of the module ends up as once every call was handled, given the word `w` it
/// held when the calls were read: an ARM `b`/`bl` to a replaced entry becomes a branch with
/// the same condition and kind to the entry's shared trampoline, or (a `bl`) a `b` with the
/// same condition into the new trampoline area, or stays as it was, which happens only when
/// the shared trampoline is out of a branch's reach; any other word stays as it was.
pub open spec fn chamada_final(orig: Seq<u8>, base: u32, mapa: Map<u32, (u32, usize, usize)>, d: Estado, i: int) -> bool {
    let w = palavra_spec(orig, i);
    let pc = endereco(base, i);
    let alvo = alvo_arm(pc, w);
    let nw = palavra_spec(d.modulo, i);
    if e_desvio_arm(w) && mapa.contains_key(alvo) {
        ||| (alvo_arm(pc, nw) == mapa[alvo].0 && nw & 0xff00_0000 == w & 0xff00_0000)
        ||| {
            &&& w & 0x0100_0000 != 0
            &&& nw & 0xff00_0000 == (w & 0xf000_0000) | 0x0a00_0000
            &&& exists|j: int| 0 <= j < d.novos.len() && alvo_arm(pc, nw) == #[trigger] proximo_trampolim(d.novos.subrange(0, j))
        }
        ||| (nw == w && desvio_spec(pc, mapa[alvo].0, w & 0xff00_0000) is None)
    } else {
        nw == w
    }
}

/// What `chamada_final` says of a word still holds once the trampoline area grew, as long as
/// the word itself did not change.
proof fn lemma_chamada_final_fica(orig: Seq<u8>, base: u32, mapa: Map<u32, (u32, usize, usize)>, a: Estado, d: Estado, i: int)
    requires
        chamada_final(orig, base, mapa, a, i),
        palavra_spec(d.modulo, i) == palavra_spec(a.modulo, i),
        d.novos.len() >= a.novos.len(),
        d.novos.subrange(0, a.novos.len() as int) == a.novos,
    ensures
        chamada_final(orig, base, mapa, d, i),
{
    let na = palavra_spec(a.modulo, i);
    let wi = palavra_spec(orig, i);
    let pci = endereco(base, i);
    if exists|j: int| 0 <= j < a.novos.len() && alvo_arm(pci, na) == #[trigger] proximo_trampolim(a.novos.subrange(0, j)) {
        let j = choose|j: int| 0 <= j < a.novos.len() && alvo_arm(pci, na) == #[trigger] proximo_trampolim(a.novos.subrange(0, j));
        assert(d.novos.subrange(0, j) =~= a.novos.subrange(0, j));
        assert(alvo_arm(pci, na) == proximo_trampolim(d.novos.subrange(0, j)));
    }
}

/// Writing a word at `p` leaves the other word-aligned words as they were.
proof fn lemma_outras_palavras(s: Seq<u8>, p: int, nw: u32, i: int)
    requires
        0 <= p,
        p % 4 == 0,
        p + 4 <= s.len(),
        0 <= i,
        i % 4 == 0,
        i + 4 <= s.len(),
        i != p,
    ensures
        palavra_spec(escreve_spec(s, p, nw), i) == palavra_spec(s, i),
{
    lemma_escreve_le(s, p, nw);
    let d = escreve_spec(s, p, nw);
    assert(i + 4 <= p || i >= p + 4);
    assert(d[i] == s[i]);
    assert(d[i + 1] == s[i + 1]);
    assert(d[i + 2] == s[i + 2]);
    assert(d[i + 3] == s[i + 3]);
}

/// Where the call phase stands after the positions below `k`: the module keeps its length,
/// the report too, every word-aligned word before `k` is as `chamada_final` says and every one
/// from `k` on is still the word it was.
spec fn chamadas_ok(orig: Seq<u8>, base: u32, mapa: Map<u32, (u32, usize, usize)>, n: int, d: Estado, k: int) -> bool {
    &&& d.modulo.len() == orig.len()
    &&& d.trocas.len() == n
    &&& forall|i: int| 0 <= i && i % 4 == 0 && i + 4 <= orig.len() && i < k ==> #[trigger] chamada_final(orig, base, mapa, d, i)
    &&& forall|i: int| 0 <= i && i % 4 == 0 && i + 4 <= orig.len() && i >= k ==> #[trigger] palavra_spec(d.modulo, i) == palavra_spec(orig, i)
}

/// One call step keeps `chamadas_ok`, one position further.
#[verifier::spinoff_prover]
proof fn lemma_chamadas_passo(orig: Seq<u8>, base: u32, mapa: Map<u32, (u32, usize, usize)>, n: int, a: Estado, p: int)
    requires
        chamadas_ok(orig, base, mapa, n, a, p),
        0 <= p,
        p % 4 == 0,
        p + 4 <= orig.len(),
        base + orig.len() <= u32::MAX,
        forall|x: u32| #[trigger] mapa.contains_key(x) ==> mapa[x].1 < NUM_CORPOS && mapa[x].2 < n,
    ensures
        chamadas_ok(orig, base, mapa, n, passo_chamada(a, orig, base, mapa, p), p + 1),
{
    let d = passo_chamada(a, orig, base, mapa, p);
    lemma_chamada_vai_ao_trampolim(a, orig, base, mapa, p);
    lemma_passo_chamada_acrescenta(a, orig, base, mapa, p);
    let w = palavra_spec(orig, p);
    let pc = endereco(base, p);
    let alvo = alvo_arm(pc, w);
    assert(palavra_spec(a.modulo, p) == w);
    if d == a {
        if e_desvio_arm(w) && mapa.contains_key(alvo) && desvio_spec(pc, mapa[alvo].0, w & 0xff00_0000) is Some {
            lemma_passo_chamada_muda(a, orig, base, mapa, p);
        }
        assert(chamada_final(orig, base, mapa, d, p));
        assert forall|i: int| 0 <= i && i % 4 == 0 && i + 4 <= orig.len() && i < p + 1 implies #[trigger] chamada_final(orig, base, mapa, d, i) by {
            if i < p {
                assert(chamada_final(orig, base, mapa, a, i));
            }
        }
    } else {
        let nw = choose|nw: u32| #[trigger] escreve_spec(a.modulo, p, nw) == d.modulo && chamada_reescrita(a, d, w, pc, mapa[alvo].0, nw);
        lemma_escreve_le(a.modulo, p, nw);
        assert(palavra_spec(d.modulo, p) == nw);
        if !(alvo_arm(pc, nw) == mapa[alvo].0 && nw & 0xff00_0000 == w & 0xff00_0000) {
            let j = a.novos.len() as int;
            assert(d.novos.subrange(0, j) == a.novos);
            assert(alvo_arm(pc, nw) == proximo_trampolim(d.novos.subrange(0, j)));
        }
        assert(chamada_final(orig, base, mapa, d, p));
        assert forall|i: int| 0 <= i && i % 4 == 0 && i + 4 <= orig.len() && i != p implies #[trigger] palavra_spec(d.modulo, i) == palavra_spec(a.modulo, i) by {
            lemma_outras_palavras(a.modulo, p, nw, i);
        }
        assert forall|i: int| 0 <= i && i % 4 == 0 && i + 4 <= orig.len() && i < p + 1 implies #[trigger] chamada_final(orig, base, mapa, d, i) by {
            if i < p {
                assert(palavra_spec(d.modulo, i) == palavra_spec(a.modulo, i));
                lemma_chamada_final_fica(orig, base, mapa, a, d, i);
            }
        }
        assert forall|i: int| 0 <= i && i % 4 == 0 && i + 4 <= orig.len() && i >= p + 1 implies #[trigger] palavra_spec(d.modulo, i) == palavra_spec(orig, i) by {
            assert(palavra_spec(d.modulo, i) == palavra_spec(a.modulo, i));
        }
    }
}

/// The call phase up to byte `k` leaves the module as `chamadas_ok` says.
proof fn lemma_chamadas_ate(
    e: Estado,
    base: u32,
    mapa: Map<u32, (u32, usize, usize)>,
    k: int,
)
    requires
        0 <= k,
        base + e.modulo.len() <= u32::MAX,
        forall|x: u32| #[trigger] mapa.contains_key(x) ==> mapa[x].1 < NUM_CORPOS && mapa[x].2 < e.trocas.len(),
    ensures
        chamadas_ok(e.modulo, base, mapa, e.trocas.len() as int, apos_chamadas(e, e.modulo, base, mapa, k), k),
    decreases k,
{
    let orig = e.modulo;
    if k > 0 {
        lemma_chamadas_ate(e, base, mapa, k - 1);
        let a = apos_chamadas(e, orig, base, mapa, k - 1);
        let p = k - 1;
        if p % 4 == 0 && p + 4 <= orig.len() {
            lemma_chamadas_passo(orig, base, mapa, e.trocas.len() as int, a, p);
        } else {
            assert(apos_chamadas(e, orig, base, mapa, k) == a);
            assert forall|i: int| 0 <= i && i % 4 == 0 && i + 4 <= orig.len() && i < k implies #[trigger] chamada_final(orig, base, mapa, a, i) by {
                assert(i != p);
            }
        }
    }
}

/// The entry phase so far kept the module `n` bytes long, and every replaced entry it
/// recorded has its place in the report and leads to a known body.
spec fn entradas_ok(e: Estado, n: int) -> bool {
    &&& e.modulo.len() == n
    &&& e.redireciona.len() == e.trocas.len()
    &&& forall|j: int| 0 <= j < e.redireciona.len() ==> (#[trigger] e.redireciona[j]).2 < NUM_CORPOS
}

proof fn lemma_troca_ok(e: Estado, alvos: Set<u32>, base: u32, rot: usize, off: int, antiga: bool, n: int)
    requires
        entradas_ok(e, n),
        rot < NUM_CORPOS,
        0 <= off,
        off + 8 <= n,
    ensures
        entradas_ok(troca_spec(e, alvos, base, rot, off, antiga).0, n),
{
    let d = troca_spec(e, alvos, base, rot, off, antiga).0;
    lemma_escreve_le(e.modulo, off, LDR_PC);
    lemma_escreve_le(escreve_spec(e.modulo, off, LDR_PC), off + 4, proximo_trampolim(e.novos));
    lemma_escreve_le(e.modulo, off, desvio_spec(endereco(base, off), proximo_trampolim(e.novos), 0xea00_0000)->0);
    if d.redireciona.len() > e.redireciona.len() {
        assert forall|j: int| 0 <= j < d.redireciona.len() implies (#[trigger] d.redireciona[j]).2 < NUM_CORPOS by {
            if j < e.redireciona.len() {
                assert(d.redireciona[j] == e.redireciona[j]);
            }
        }
    }
}

proof fn lemma_passo_rotina_ok(e: Estado, alvos: Set<u32>, base: u32, i: int, n: int)
    requires
        entradas_ok(e, n),
        0 <= i < NUM_ROTINAS,
        n <= usize::MAX,
    ensures
        entradas_ok(passo_rotina(e, alvos, base, i), n),
{
    lemma_tamanhos_da_tabela();
    let sig = assinatura_spec(i);
    let achados = procura_spec(e.modulo, sig);
    lemma_achados_casam(e.modulo, sig, e.modulo.len() as int);
    if achados.len() == 1 {
        let off = achados[0] as int;
        assert(casa(e.modulo, sig, off));
        let (e1, antiga) = troca_spec(e, alvos, base, i as usize, off, i < ROTINAS_ANTIGAS);
        lemma_troca_ok(e, alvos, base, i as usize, off, i < ROTINAS_ANTIGAS, n);
        if i == FFLT && tem_ffltu(e.modulo, base, off) {
            lemma_troca_ok(e1, alvos, base, FFLTU, off + FFLTU_DESLOCAMENTO, antiga, n);
        }
    }
}

proof fn lemma_apos_rotinas_ok(e: Estado, alvos: Set<u32>, base: u32, k: int, n: int)
    requires
        entradas_ok(e, n),
        k <= NUM_ROTINAS,
        n <= usize::MAX,
    ensures
        entradas_ok(apos_rotinas(e, alvos, base, k), n),
    decreases k,
{
    if k > 0 {
        lemma_apos_rotinas_ok(e, alvos, base, k - 1, n);
        lemma_passo_rotina_ok(apos_rotinas(e, alvos, base, k - 1), alvos, base, k - 1, n);
    }
}

proof fn lemma_trocas_em_ok(e: Estado, alvos: Set<u32>, base: u32, c: int, lista: Seq<usize>, k: int, n: int)
    requires
        entradas_ok(e, n),
        0 <= c < NUM_CORPOS,
        k <= lista.len(),
        forall|j: int| 0 <= j < lista.len() ==> #[trigger] lista[j] + 8 <= n,
    ensures
        entradas_ok(trocas_em(e, alvos, base, c, lista, k), n),
    decreases k,
{
    if k > 0 {
        lemma_trocas_em_ok(e, alvos, base, c, lista, k - 1, n);
        assert(lista[k - 1] + 8 <= n);
        lemma_troca_ok(trocas_em(e, alvos, base, c, lista, k - 1), alvos, base, c as usize, lista[k - 1] as int, false, n);
    }
}

proof fn lemma_apos_comparacoes_ok(e: Estado, alvos: Set<u32>, base: u32, k: int, n: int)
    requires
        entradas_ok(e, n),
        k <= 2,
        n <= usize::MAX,
    ensures
        entradas_ok(apos_comparacoes(e, alvos, base, k), n),
    decreases k,
{
    if k > 0 {
        lemma_apos_comparacoes_ok(e, alvos, base, k - 1, n);
        let a = apos_comparacoes(e, alvos, base, k - 1);
        let c = PRIMEIRA_COMPARACAO + k - 1;
        lemma_tamanhos_da_tabela();
        let sig = assinatura_spec(c);
        let achados = procura_spec(a.modulo, sig);
        lemma_achados_casam(a.modulo, sig, a.modulo.len() as int);
        if 1 <= achados.len() <= 2 {
            assert forall|j: int| 0 <= j < achados.len() implies #[trigger] achados[j] + 8 <= n by {
                assert(casa(a.modulo, sig, achados[j] as int));
            }
            lemma_trocas_em_ok(a, alvos, base, c, achados, achados.len() as int, n);
        }
    }
}

/// Replacing the entries keeps the module's length, and every replaced entry has its place in
/// the report and leads to a known body.
proof fn lemma_fase_entradas_ok(s: Seq<u8>, base: u32)
    requires
        s.len() <= usize::MAX,
    ensures
        entradas_ok(fase_entradas(s, base), s.len() as int),
{
    let alvos = destinos_spec(s, base);
    let e0 = estado_inicial(s);
    lemma_apos_rotinas_ok(e0, alvos, base, NUM_ROTINAS as int, s.len() as int);
    lemma_apos_comparacoes_ok(apos_rotinas(e0, alvos, base, NUM_ROTINAS as int), alvos, base, 2, s.len() as int);
}

/// Every call to a replaced entry goes to a trampoline, over the whole module: once `acelera`
/// is done, every word-aligned word of the module, read as it stood after the entries were
/// replaced (which is where the calls are read from), ends up as `chamada_final` says; both
/// phases keep the module's length.
pub proof fn lemma_todas_as_chamadas(s: Seq<u8>, base: u32, i: int)
    requires
        base + s.len() <= u32::MAX,
        0 <= i,
        i % 4 == 0,
        i + 4 <= s.len(),
    ensures
        ({
            let e = fase_entradas(s, base);
            let d = acelera_spec(s, base);
            &&& e.modulo.len() == s.len()
            &&& d.modulo.len() == s.len()
            &&& chamada_final(e.modulo, base, mapa_spec(e.redireciona), d, i)
        }),
{
    let e = fase_entradas(s, base);
    lemma_fase_entradas_ok(s, base);
    lemma_mapa_spec(e.redireciona);
    let m = mapa_spec(e.redireciona);
    lemma_chamadas_ate(e, base, m, s.len() as int);
}

/// A routine is replaced only when its signature appears exactly once in the module as it
/// stands; a comparison only when it appears once or twice. Otherwise the step changes nothing.
pub proof fn lemma_so_troca_quando_aparece_uma_vez(e: Estado, alvos: Set<u32>, base: u32, i: int)
    ensures
        procura_spec(e.modulo, assinatura_spec(i)).len() != 1 ==> passo_rotina(e, alvos, base, i) == e,
        !(1 <= procura_spec(e.modulo, assinatura_spec(i)).len() <= 2) ==> passo_comparacao(e, alvos, base, i) == e,
{
}

/// A word of one of the VFP bodies, without its return.
pub open spec fn palavra_de_corpo(w: u32) -> bool {
    exists|k: int, j: int| 0 <= k < NUM_CORPOS && 0 <= j < corpo_spec(k).len() - 1 && #[trigger] corpo_spec(k)[j] == w
}

/// The straight-line code copied after a call can change address: every word the copy adds is
/// either a copiable instruction of the module (one that neither reads nor writes the PC nor
/// branches) or a word of an inlined VFP body; what was there before is kept.
pub proof fn lemma_copia_so_o_que_nao_depende_do_endereco(
    orig: Seq<u8>,
    base: u32,
    off: int,
    mapa: Map<u32, (u32, usize, usize)>,
    seq: Seq<u32>,
    emb: int,
    resta: nat,
)
    requires
        forall|x: u32| #[trigger] mapa.contains_key(x) ==> mapa[x].1 < NUM_CORPOS,
    ensures
        ({
            let r = estende_spec(orig, base, off, mapa, seq, emb, resta).2;
            &&& r.len() >= seq.len()
            &&& r.subrange(0, seq.len() as int) == seq
            &&& forall|j: int| seq.len() <= j < r.len() ==> copiavel_spec(#[trigger] r[j]) || palavra_de_corpo(r[j])
        }),
    decreases resta,
{
    lemma_tamanhos_da_tabela();
    let r = estende_spec(orig, base, off, mapa, seq, emb, resta).2;
    if resta > 0 && off + 4 <= orig.len() {
        let w = palavra_spec(orig, off);
        if w >> 24u32 == 0xeb {
            let alvo = alvo_arm(endereco(base, off), w);
            if mapa.contains_key(alvo) && corpo_spec(mapa[alvo].1 as int).last() == BX_LR {
                let k = mapa[alvo].1 as int;
                let c = corpo_spec(k).drop_last();
                let s2 = seq + c;
                lemma_copia_so_o_que_nao_depende_do_endereco(orig, base, off + 4, mapa, s2, emb + 1, (resta - 1) as nat);
                assert forall|j: int| seq.len() <= j < r.len() implies copiavel_spec(#[trigger] r[j]) || palavra_de_corpo(r[j]) by {
                    if j < s2.len() {
                        assert(r[j] == r.subrange(0, s2.len() as int)[j]);
                        assert(r[j] == s2[j]);
                        assert(s2[j] == c[j - seq.len()]);
                        assert(corpo_spec(k)[j - seq.len()] == r[j]);
                    }
                }
                assert(r.subrange(0, seq.len() as int) =~= seq) by {
                    assert(r.subrange(0, seq.len() as int) =~= r.subrange(0, s2.len() as int).subrange(0, seq.len() as int));
                }
            }
        } else if copiavel_spec(w) {
            let s2 = seq.push(w);
            lemma_copia_so_o_que_nao_depende_do_endereco(orig, base, off + 4, mapa, s2, emb, (resta - 1) as nat);
            assert forall|j: int| seq.len() <= j < r.len() implies copiavel_spec(#[trigger] r[j]) || palavra_de_corpo(r[j]) by {
                if j < s2.len() {
                    assert(r[j] == r.subrange(0, s2.len() as int)[j]);
                }
            }
            assert(r.subrange(0, seq.len() as int) =~= seq) by {
                assert(r.subrange(0, seq.len() as int) =~= r.subrange(0, s2.len() as int).subrange(0, seq.len() as int));
            }
        } else {
            assert(r.subrange(0, seq.len() as int) =~= seq);
        }
    } else {
        assert(r.subrange(0, seq.len() as int) =~= seq);
    }
}

} // verus!

verus! {

/// The word `w` at `pc` is an unconditional `bl` (condition "always") to a replaced entry whose
/// body returns with `bx lr`: a call that the copy after another call may inline.
pub open spec fn chamada_embutivel(w: u32, pc: u32, mapa: Map<u32, (u32, usize, usize)>) -> bool {
    &&& w >> 28u32 == 0xe
    &&& (w >> 24u32) & 0xf == 0xb
    &&& mapa.contains_key(alvo_arm(pc, w))
    &&& corpo_spec(mapa[alvo_arm(pc, w)].1 as int).last() == BX_LR
}

/// How the copy after a call walks the module: from `off` it goes word by word, at most
/// `resta` words, and every word it goes past is either an instruction that can move
/// (`copiavel_spec`) or an unconditional `bl` to a replaced routine; a conditional call or
/// branch is never gone past. It stops at the first word that is neither, at the end of the
/// module, or after `resta` words; it inlines no more calls than the words it went past.
pub proof fn lemma_copia_percorre(
    orig: Seq<u8>,
    base: u32,
    off: int,
    mapa: Map<u32, (u32, usize, usize)>,
    seq: Seq<u32>,
    emb: int,
    resta: nat,
)
    requires
        0 <= off <= orig.len(),
    ensures
        ({
            let (o, n, r) = estende_spec(orig, base, off, mapa, seq, emb, resta);
            &&& off <= o <= off + 4 * resta
            &&& (o - off) % 4 == 0
            &&& emb <= n <= emb + (o - off) / 4
            &&& forall|p: int| off <= p < o && (p - off) % 4 == 0 ==>
                copiavel_spec(#[trigger] palavra_spec(orig, p)) || chamada_embutivel(palavra_spec(orig, p), endereco(base, p), mapa)
            &&& (o == off + 4 * resta || o + 4 > orig.len() || !(copiavel_spec(palavra_spec(orig, o))
                || chamada_embutivel(palavra_spec(orig, o), endereco(base, o), mapa)))
        }),
    decreases resta,
{
    let (o, n, r) = estende_spec(orig, base, off, mapa, seq, emb, resta);
    if resta > 0 && off + 4 <= orig.len() {
        let w = palavra_spec(orig, off);
        let pc = endereco(base, off);
        assert(w >> 24u32 == 0xeb <==> (w >> 28u32 == 0xe && (w >> 24u32) & 0xf == 0xb)) by (bit_vector);
        if copiavel_spec(w) {
            lemma_copiavel_nao_toca_o_pc(w);
            assert((w >> 25u32) & 7 <= 4 ==> w >> 24u32 != 0xeb) by (bit_vector);
        }
        if w >> 24u32 == 0xeb {
            let alvo = alvo_arm(pc, w);
            if mapa.contains_key(alvo) && corpo_spec(mapa[alvo].1 as int).last() == BX_LR {
                lemma_copia_percorre(orig, base, off + 4, mapa, seq + corpo_spec(mapa[alvo].1 as int).drop_last(), emb + 1, (resta - 1) as nat);
            }
        } else if copiavel_spec(w) {
            lemma_copia_percorre(orig, base, off + 4, mapa, seq.push(w), emb, (resta - 1) as nat);
        }
    }
}

} // verus!
