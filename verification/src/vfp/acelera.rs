//! The rewrite itself: replaces the routines found in a module and points the calls to them
//! straight at their trampolines.

use vstd::prelude::*;
use std::collections::HashSet;
use crate::vfp::arm::{
    alvo_de, copiavel, desvio, destinos, destinos_spec, endereco, endereco_de, escreve, palavra,
    soma32, soma_u32,
};
use crate::vfp::busca::{casa, lemma_achados_casam, procura, procura_spec};
use crate::vfp::mapa::{conteudo_mapa, mapa_busca, mapa_insere, mapa_vazio, MapaTrocas};
use crate::vfp::modelo::{
    acelera_spec, apos_chamadas, apos_comparacoes, apos_rotinas, bytes_da_palavra, bytes_de,
    estado_inicial, estende_spec, fase_entradas, lemma_mapa_spec, mapa_spec, passo_chamada, passo_comparacao,
    passo_rotina, tem_ffltu, troca_spec, trocas_em, Estado, Troca, Trampolins, TRECHO_MAXIMO,
    VFP_BASE,
};
use crate::vfp::rotinas::{
    assinatura, assinatura_spec, corpo, lemma_tamanhos_da_tabela, nome, BX_LR, FFLT, FFLTU,
    FFLTU_DESLOCAMENTO, FFLTU_MOV, LDR_PC, NUM_ASSINATURAS, NUM_CORPOS, NUM_ROTINAS,
    PRIMEIRA_COMPARACAO, ROTINAS_ANTIGAS,
};

verus! {

/// The work in progress: the module and what was built so far.
struct Obra {
    modulo: Vec<u8>,
    novos: Vec<u32>,
    antigos: Vec<u32>,
    redireciona: Vec<(u32, u32, usize)>,
    trocas: Vec<Troca>,
    embutidas: u32,
}

impl Obra {
    spec fn estado(&self) -> Estado {
        Estado {
            modulo: self.modulo@,
            novos: self.novos@,
            antigos: self.antigos@,
            redireciona: self.redireciona@,
            trocas: self.trocas@,
            embutidas: self.embutidas as int,
        }
    }

    /// The record of replaced entries and the report go together, every entry leads to a
    /// known body, and no call was counted yet.
    spec fn registro_ok(&self) -> bool {
        &&& self.redireciona@.len() == self.trocas@.len()
        &&& forall|j: int| 0 <= j < self.redireciona@.len() ==> (#[trigger] self.redireciona@[j]).2 < NUM_CORPOS
    }
}

/// The address `n` words after `a`, wrapping at 32 bits.
fn avanca(a: u32, n: usize) -> (r: u32)
    ensures
        r == soma32(a as int, 4 * n as int),
{
    let m: u32 = n as u32;
    let p: u32 = m.wrapping_mul(4);
    let r: u32 = a.wrapping_add(p);
    proof {
        assert((n as u32) as u64 == (n as u64) % 0x1_0000_0000u64) by (bit_vector);
        assert(p == (4 * m) % 0x1_0000_0000);
        assert(r == (a + p) % 0x1_0000_0000);
        vstd::arithmetic::div_mod::lemma_mul_mod_noop_right(4, n as int, 0x1_0000_0000);
        vstd::arithmetic::div_mod::lemma_add_mod_noop(a as int, 4 * n, 0x1_0000_0000);
        vstd::arithmetic::div_mod::lemma_mod_twice(a as int, 0x1_0000_0000);
    }
    r
}

/// Replaces the entry of routine `rot` at byte `off`.
fn troca(
    obra: &mut Obra,
    alvos: &HashSet<u32>,
    base: u32,
    rot: usize,
    off: usize,
    antiga: bool,
) -> (r: bool)
    requires
        rot < NUM_CORPOS,
        off + 8 <= old(obra).modulo@.len(),
        old(obra).registro_ok(),
    ensures
        (final(obra).estado(), r) == troca_spec(old(obra).estado(), alvos@, base, rot, off as int, antiga),
        final(obra).modulo@.len() == old(obra).modulo@.len(),
        final(obra).trocas@.len() <= old(obra).trocas@.len() + 1,
        final(obra).registro_ok(),
        forall|k: int| 0 <= k < old(obra).trocas@.len() ==> #[trigger] final(obra).trocas@[k] == old(obra).trocas@[k],
        final(obra).trocas@.len() > old(obra).trocas@.len() ==> final(obra).trocas@.last().chamadas == 0,
        final(obra).embutidas == old(obra).embutidas,
{
    broadcast use vstd::std_specs::hash::group_hash_axioms;

    proof {
        lemma_tamanhos_da_tabela();
        assert(obra.modulo.len() == obra.modulo@.len());
    }
    let entrada = endereco_de(base, off);
    let destino = avanca(VFP_BASE, obra.novos.len());
    let segunda_livre = !alvos.contains(&entrada.wrapping_add(4));
    match desvio(entrada, destino, 0xea00_0000) {
        Some(b) => {
            escreve(&mut obra.modulo, off, b);
        },
        None => {
            if segunda_livre {
                escreve(&mut obra.modulo, off, LDR_PC);
                escreve(&mut obra.modulo, off + 4, destino);
            } else {
                return false;
            }
        },
    }
    let mut c = corpo(rot);
    obra.novos.append(&mut c);
    let antiga = antiga && segunda_livre;
    if antiga {
        let mut c = corpo(rot);
        obra.antigos.append(&mut c);
    }
    obra.redireciona.push((entrada, destino, rot));
    obra.trocas.push(Troca { nome: nome(rot), entrada, chamadas: 0 });
    antiga
}

/// Whether the unsigned conversion follows the signed one whose entry is at byte `off`.
fn tem_ffltu_em(modulo: &Vec<u8>, base: u32, off: usize) -> (r: bool)
    requires
        off < modulo@.len(),
    ensures
        r == tem_ffltu(modulo@, base, off as int),
{
    if modulo.len() < FFLTU_DESLOCAMENTO + 8 || off > modulo.len() - (FFLTU_DESLOCAMENTO + 8) {
        return false;
    }
    let u = off + FFLTU_DESLOCAMENTO;
    if palavra(modulo.as_slice(), u) == FFLTU_MOV {
        let w = palavra(modulo.as_slice(), u + 4);
        let alvo = alvo_de(endereco_de(base, u + 4), w);
        w & 0x0f00_0000 == 0x0a00_0000 && alvo == endereco_de(base, off + 12)
    } else {
        false
    }
}

/// Replaces routine `i` when its signature appears exactly once.
fn passo_rotina_em(obra: &mut Obra, alvos: &HashSet<u32>, base: u32, i: usize)
    requires
        i < NUM_ROTINAS,
        old(obra).registro_ok(),
    ensures
        final(obra).estado() == passo_rotina(old(obra).estado(), alvos@, base, i as int),
        final(obra).modulo@.len() == old(obra).modulo@.len(),
        final(obra).trocas@.len() <= old(obra).trocas@.len() + 2,
        final(obra).registro_ok(),
        forall|k: int| 0 <= k < final(obra).trocas@.len() ==> (k < old(obra).trocas@.len() ==> #[trigger] final(obra).trocas@[k] == old(obra).trocas@[k]) && (k >= old(obra).trocas@.len() ==> final(obra).trocas@[k].chamadas == 0),
        final(obra).embutidas == old(obra).embutidas,
{
    proof {
        lemma_tamanhos_da_tabela();
        assert(obra.modulo.len() == obra.modulo@.len());
    }
    let sig = assinatura(i);
    let achados = procura(obra.modulo.as_slice(), sig.as_slice());
    if achados.len() != 1 {
        return;
    }
    let off = achados[0];
    proof {
        lemma_achados_casam(obra.modulo@, sig@, obra.modulo@.len() as int);
        assert(casa(obra.modulo@, sig@, off as int));
    }
    let ffltu = i == FFLT && tem_ffltu_em(&obra.modulo, base, off);
    let antiga = troca(obra, alvos, base, i, off, i < ROTINAS_ANTIGAS);
    if ffltu {
        troca(obra, alvos, base, FFLTU, off + FFLTU_DESLOCAMENTO, antiga);
    }
}


/// Replaces comparison `c` at every place where it appears, when that is once or twice.
fn passo_comparacao_em(obra: &mut Obra, alvos: &HashSet<u32>, base: u32, c: usize)
    requires
        PRIMEIRA_COMPARACAO <= c < NUM_ASSINATURAS,
        old(obra).registro_ok(),
    ensures
        final(obra).estado() == passo_comparacao(old(obra).estado(), alvos@, base, c as int),
        final(obra).modulo@.len() == old(obra).modulo@.len(),
        final(obra).trocas@.len() <= old(obra).trocas@.len() + 2,
        final(obra).registro_ok(),
        forall|k: int| 0 <= k < final(obra).trocas@.len() ==> (k < old(obra).trocas@.len() ==> #[trigger] final(obra).trocas@[k] == old(obra).trocas@[k]) && (k >= old(obra).trocas@.len() ==> final(obra).trocas@[k].chamadas == 0),
        final(obra).embutidas == old(obra).embutidas,
{
    proof {
        lemma_tamanhos_da_tabela();
        assert(obra.modulo.len() == obra.modulo@.len());
    }
    let sig = assinatura(c);
    let achados = procura(obra.modulo.as_slice(), sig.as_slice());
    if achados.len() < 1 || achados.len() > 2 {
        return;
    }
    let ghost e0 = obra.estado();
    proof {
        lemma_achados_casam(obra.modulo@, sig@, obra.modulo@.len() as int);
    }
    let mut k: usize = 0;
    while k < achados.len()
        invariant
            achados@ == procura_spec(e0.modulo, assinatura_spec(c as int)),
            1 <= achados@.len() <= 2,
            k <= achados@.len(),
            sig@ == assinatura_spec(c as int),
            forall|j: int| 0 <= j < achados@.len() ==> casa(e0.modulo, sig@, #[trigger] achados@[j] as int),
            c < NUM_CORPOS,
            sig@.len() >= 5,
            obra.estado() == trocas_em(e0, alvos@, base, c as int, achados@, k as int),
            obra.modulo@.len() == e0.modulo.len(),
            obra.trocas@.len() <= e0.trocas.len() + k,
            obra.trocas@.len() >= e0.trocas.len(),
            obra.registro_ok(),
            forall|j: int| 0 <= j < obra.trocas@.len() ==> (j < e0.trocas.len() ==> #[trigger] obra.trocas@[j] == e0.trocas[j]) && (j >= e0.trocas.len() ==> obra.trocas@[j].chamadas == 0),
            obra.embutidas == e0.embutidas,
        decreases achados@.len() - k,
    {
        let off = achados[k];
        proof {
            assert(casa(e0.modulo, sig@, off as int));
        }
        let ghost antes = obra.trocas@;
        troca(obra, alvos, base, c, off, false);
        proof {
            assert forall|j: int| 0 <= j < obra.trocas@.len() implies (j < e0.trocas.len() ==> #[trigger] obra.trocas@[j] == e0.trocas[j]) && (j >= e0.trocas.len() ==> obra.trocas@[j].chamadas == 0) by {
                if j < antes.len() {
                    assert(obra.trocas@[j] == antes[j]);
                } else {
                    assert(j == obra.trocas@.len() - 1);
                    assert(obra.trocas@.last().chamadas == 0);
                }
            }
        }
        k = k + 1;
    }
}

/// Replaces every routine and comparison found in the module.
fn fase_entradas_em(obra: &mut Obra, alvos: &HashSet<u32>, base: u32)
    requires
        old(obra).estado() == estado_inicial(old(obra).modulo@),
        old(obra).embutidas == 0,
        alvos@ == destinos_spec(old(obra).modulo@, base),
    ensures
        final(obra).estado() == fase_entradas(old(obra).modulo@, base),
        final(obra).modulo@.len() == old(obra).modulo@.len(),
        final(obra).registro_ok(),
        forall|k: int| 0 <= k < final(obra).trocas@.len() ==> (#[trigger] final(obra).trocas@[k]).chamadas == 0,
        final(obra).embutidas == 0,
{
    let ghost s = obra.modulo@;
    let mut i: usize = 0;
    while i < NUM_ROTINAS
        invariant
            i <= NUM_ROTINAS,
            alvos@ == destinos_spec(s, base),
            obra.estado() == apos_rotinas(estado_inicial(s), alvos@, base, i as int),
            obra.modulo@.len() == s.len(),
            obra.registro_ok(),
            forall|k: int| 0 <= k < obra.trocas@.len() ==> (#[trigger] obra.trocas@[k]).chamadas == 0,
            obra.embutidas == 0,
        decreases NUM_ROTINAS - i,
    {
        passo_rotina_em(obra, alvos, base, i);
        i = i + 1;
    }
    let ghost e9 = obra.estado();
    let mut c: usize = 0;
    while c < 2
        invariant
            c <= 2,
            obra.estado() == apos_comparacoes(e9, alvos@, base, c as int),
            obra.modulo@.len() == s.len(),
            obra.registro_ok(),
            forall|k: int| 0 <= k < obra.trocas@.len() ==> (#[trigger] obra.trocas@[k]).chamadas == 0,
            obra.embutidas == 0,
        decreases 2 - c,
    {
        passo_comparacao_em(obra, alvos, base, PRIMEIRA_COMPARACAO + c);
        c = c + 1;
    }
}


/// Builds the map from the replaced entries to their trampolines.
fn monta_mapa(red: &Vec<(u32, u32, usize)>) -> (r: MapaTrocas)
    ensures
        conteudo_mapa(r) == mapa_spec(red@),
{
    let mut mapa = mapa_vazio();
    proof {
        assert(conteudo_mapa(mapa) =~= mapa_spec(red@.subrange(0, 0)));
    }
    let mut j: usize = 0;
    while j < red.len()
        invariant
            j <= red@.len(),
            conteudo_mapa(mapa) == mapa_spec(red@.subrange(0, j as int)),
        decreases red@.len() - j,
    {
        let (e, d, r) = red[j];
        mapa_insere(&mut mapa, e, (d, r, j));
        proof {
            let sub = red@.subrange(0, j + 1);
            assert(sub.drop_last() =~= red@.subrange(0, j as int));
            assert(sub.last() == red@[j as int]);
        }
        j = j + 1;
    }
    proof {
        assert(red@.subrange(0, red@.len() as int) =~= red@);
    }
    mapa
}

/// Copies the straight-line code after a call, from byte `off`, as `estende_spec` says;
/// gives the address of the first instruction not copied and how many calls were inlined.
fn estende(
    intacto: &[u8],
    base: u32,
    off: usize,
    mapa: &MapaTrocas,
    seq: &mut Vec<u32>,
) -> (r: (u32, u32))
    requires
        off <= intacto@.len(),
        forall|k: u32| #[trigger] conteudo_mapa(*mapa).contains_key(k) ==> conteudo_mapa(*mapa)[k].1 < NUM_CORPOS,
        old(seq)@.len() <= 4,
    ensures
        ({
            let (o, n, sq) = estende_spec(intacto@, base, off as int, conteudo_mapa(*mapa), old(seq)@, 0, TRECHO_MAXIMO as nat);
            &&& r.0 == endereco(base, o)
            &&& r.1 == n
            &&& final(seq)@ == sq
        }),
        final(seq)@.len() <= old(seq)@.len() + 4 * TRECHO_MAXIMO,
        r.1 <= TRECHO_MAXIMO,
{
    proof {
        lemma_tamanhos_da_tabela();
    }
    let ghost m = conteudo_mapa(*mapa);
    let ghost fim = estende_spec(intacto@, base, off as int, m, seq@, 0, TRECHO_MAXIMO as nat);
    let ghost seq0 = seq@;
    let ghost off0 = off;
    let mut embutidas: u32 = 0;
    let mut pos: usize = off;
    let mut passos: usize = 0;
    while passos < TRECHO_MAXIMO
        invariant
            passos <= TRECHO_MAXIMO,
            pos <= intacto@.len(),
            embutidas <= passos,
            seq@.len() <= seq0.len() + 4 * passos,
            m == conteudo_mapa(*mapa),
            seq0 == old(seq)@,
            off0 == off,
            seq0.len() <= 4,
            fim == estende_spec(intacto@, base, off0 as int, m, seq0, 0, TRECHO_MAXIMO as nat),
            forall|k: u32| #[trigger] m.contains_key(k) ==> m[k].1 < NUM_CORPOS,
            fim == estende_spec(intacto@, base, pos as int, m, seq@, embutidas as int, (TRECHO_MAXIMO - passos) as nat),
        decreases TRECHO_MAXIMO - passos,
    {
        if intacto.len() - pos < 4 {
            return (endereco_de(base, pos), embutidas);
        }
        let w = palavra(intacto, pos);
        let pc = endereco_de(base, pos);
        if w >> 24u32 == 0xeb {
            let alvo = alvo_de(pc, w);
            match mapa_busca(mapa, alvo) {
                Some((_, c, _)) => {
                    let mut corpo_c = corpo(c);
                    if corpo_c[corpo_c.len() - 1] != BX_LR {
                        return (endereco_de(base, pos), embutidas);
                    }
                    corpo_c.pop();
                    seq.append(&mut corpo_c);
                    embutidas = embutidas + 1;
                },
                None => {
                    return (endereco_de(base, pos), embutidas);
                },
            }
        } else if copiavel(w) {
            seq.push(w);
        } else {
            return (endereco_de(base, pos), embutidas);
        }
        pos = pos + 4;
        passos = passos + 1;
    }
    (endereco_de(base, pos), embutidas)
}


/// Rewrites the call at byte `i`, as `passo_chamada` says.
#[verifier::spinoff_prover]
fn passo_chamada_em(obra: &mut Obra, intacto: &[u8], base: u32, mapa: &MapaTrocas, i: usize)
    requires
        i % 4 == 0,
        i + 4 <= intacto@.len(),
        intacto@.len() == old(obra).modulo@.len(),
        base + intacto@.len() <= u32::MAX,
        forall|k: u32| #[trigger] conteudo_mapa(*mapa).contains_key(k) ==> conteudo_mapa(*mapa)[k].1 < NUM_CORPOS && conteudo_mapa(*mapa)[k].2 < old(obra).trocas@.len(),
        forall|k: int| 0 <= k < old(obra).trocas@.len() ==> 4 * (#[trigger] old(obra).trocas@[k]).chamadas <= i,
    ensures
        final(obra).estado() == passo_chamada(old(obra).estado(), intacto@, base, conteudo_mapa(*mapa), i as int),
        final(obra).modulo@.len() == old(obra).modulo@.len(),
        final(obra).trocas@.len() == old(obra).trocas@.len(),
        forall|k: int| 0 <= k < final(obra).trocas@.len() ==> 4 * (#[trigger] final(obra).trocas@[k]).chamadas <= i + 4,
{
    proof {
        lemma_tamanhos_da_tabela();
        reveal(passo_chamada);
    }
    let w = palavra(intacto, i);
    if w & 0x0e00_0000 != 0x0a00_0000 || w >> 28u32 == 0xf {
        return;
    }
    let pc = endereco_de(base, i);
    let alvo = alvo_de(pc, w);
    let (comum, rot, k) = match mapa_busca(mapa, alvo) {
        Some(v) => v,
        None => {
            return;
        },
    };
    let mut seq = corpo(rot);
    let so_dele = w & 0x0100_0000 != 0 && seq[seq.len() - 1] == BX_LR;
    let proprio = avanca(VFP_BASE, obra.novos.len());
    let direto = desvio(pc, comum, w & 0xff00_0000);
    let ida = if so_dele {
        desvio(pc, proprio, (w & 0xf000_0000) | 0x0a00_0000)
    } else {
        None
    };
    let novo = match ida {
        Some(ida) => {
            seq.pop();
            let (seguinte, embutidas) = if w >> 28u32 == 0xe {
                estende(intacto, base, i + 4, mapa, &mut seq)
            } else {
                (pc + 4, 0)
            };
            match desvio(avanca(proprio, seq.len()), seguinte, 0xea00_0000) {
                Some(volta) => {
                    seq.push(volta);
                    obra.novos.append(&mut seq);
                    obra.embutidas = soma_u32(obra.embutidas, embutidas);
                    Some(ida)
                },
                None => direto,
            }
        },
        None => direto,
    };
    match novo {
        Some(n) => {
            escreve(&mut obra.modulo, i, n);
            let t = obra.trocas[k];
            obra.trocas.set(k, Troca { nome: t.nome, entrada: t.entrada, chamadas: t.chamadas + 1 });
        },
        None => {},
    }
}


/// Past the last word-aligned position with a whole word after it, no call is rewritten.
proof fn lemma_chamadas_fim(
    e: Estado,
    orig: Seq<u8>,
    base: u32,
    mapa: Map<u32, (u32, usize, usize)>,
    i: int,
    k: int,
)
    requires
        0 <= i <= k,
        i + 3 >= orig.len(),
    ensures
        apos_chamadas(e, orig, base, mapa, k) == apos_chamadas(e, orig, base, mapa, i),
    decreases k - i,
{
    if k > i {
        lemma_chamadas_fim(e, orig, base, mapa, i, k - 1);
    }
}

/// Only the word-aligned positions rewrite a call: four positions on, one call more.
proof fn lemma_chamadas_de_quatro_em_quatro(
    e: Estado,
    orig: Seq<u8>,
    base: u32,
    mapa: Map<u32, (u32, usize, usize)>,
    i: int,
)
    requires
        0 <= i,
        i % 4 == 0,
        i + 4 <= orig.len(),
    ensures
        apos_chamadas(e, orig, base, mapa, i + 4) == passo_chamada(apos_chamadas(e, orig, base, mapa, i), orig, base, mapa, i),
{
    let a = passo_chamada(apos_chamadas(e, orig, base, mapa, i), orig, base, mapa, i);
    assert(apos_chamadas(e, orig, base, mapa, i + 1) == a);
    assert(apos_chamadas(e, orig, base, mapa, i + 2) == a);
    assert(apos_chamadas(e, orig, base, mapa, i + 3) == a);
}

/// Rewrites every call to a replaced entry.
#[verifier::spinoff_prover]
fn fase_chamadas_em(obra: &mut Obra, intacto: &[u8], base: u32, mapa: &MapaTrocas)
    requires
        old(obra).modulo@ == intacto@,
        base + intacto@.len() <= u32::MAX,
        forall|k: u32| #[trigger] conteudo_mapa(*mapa).contains_key(k) ==> conteudo_mapa(*mapa)[k].1 < NUM_CORPOS && conteudo_mapa(*mapa)[k].2 < old(obra).trocas@.len(),
        forall|k: int| 0 <= k < old(obra).trocas@.len() ==> (#[trigger] old(obra).trocas@[k]).chamadas == 0,
    ensures
        final(obra).estado() == apos_chamadas(old(obra).estado(), intacto@, base, conteudo_mapa(*mapa), intacto@.len() as int),
        final(obra).modulo@.len() == old(obra).modulo@.len(),
{
    let ghost e0 = obra.estado();
    let ghost m = conteudo_mapa(*mapa);
    let n = intacto.len();
    let limite: usize = if n >= 3 {
        n - 3
    } else {
        0
    };
    let mut i: usize = 0;
    while i < limite
        invariant
            limite == (if n >= 3 { n - 3 } else { 0 }),
            n == intacto@.len(),
            i % 4 == 0,
            i <= limite + 3,
            m == conteudo_mapa(*mapa),
            base + intacto@.len() <= u32::MAX,
            obra.modulo@.len() == n,
            obra.trocas@.len() == e0.trocas.len(),
            forall|k: u32| #[trigger] m.contains_key(k) ==> m[k].1 < NUM_CORPOS && m[k].2 < e0.trocas.len(),
            obra.estado() == apos_chamadas(e0, intacto@, base, m, i as int),
            forall|k: int| 0 <= k < obra.trocas@.len() ==> 4 * (#[trigger] obra.trocas@[k]).chamadas <= i,
        decreases limite + 4 - i,
    {
        proof {
            lemma_chamadas_de_quatro_em_quatro(e0, intacto@, base, m, i as int);
        }
        passo_chamada_em(obra, intacto, base, mapa, i);
        i = i + 4;
    }
    proof {
        lemma_chamadas_fim(e0, intacto@, base, m, i as int, n as int);
    }
}

/// The bytes of the words, little-endian, one word after the other.
fn em_bytes(ws: &Vec<u32>) -> (r: Vec<u8>)
    ensures
        r@ == bytes_de(ws@),
{
    let mut r: Vec<u8> = Vec::new();
    let mut j: usize = 0;
    proof {
        assert(ws@.subrange(0, 0) =~= Seq::<u32>::empty());
    }
    while j < ws.len()
        invariant
            j <= ws@.len(),
            r@ == bytes_de(ws@.subrange(0, j as int)),
        decreases ws@.len() - j,
    {
        let w = ws[j];
        r.push((w & 0xff) as u8);
        r.push(((w >> 8u32) & 0xff) as u8);
        r.push(((w >> 16u32) & 0xff) as u8);
        r.push(((w >> 24u32) & 0xff) as u8);
        proof {
            let sub = ws@.subrange(0, j + 1);
            assert(sub.drop_last() =~= ws@.subrange(0, j as int));
            assert(r@ =~= bytes_de(sub.drop_last()) + bytes_da_palavra(sub.last()));
        }
        j = j + 1;
    }
    proof {
        assert(ws@.subrange(0, ws@.len() as int) =~= ws@);
    }
    r
}

/// A copy of the module's bytes.
fn copia(v: &[u8]) -> (r: Vec<u8>)
    ensures
        r@ == v@,
{
    let mut r: Vec<u8> = Vec::new();
    let mut j: usize = 0;
    while j < v.len()
        invariant
            j <= v@.len(),
            r@ == v@.subrange(0, j as int),
        decreases v@.len() - j,
    {
        r.push(v[j]);
        proof {
            assert(r@ =~= v@.subrange(0, j + 1));
        }
        j = j + 1;
    }
    proof {
        assert(v@.subrange(0, v@.len() as int) =~= v@);
    }
    r
}

/// Writes the bytes of `v` over `destino`, which is as long.
fn devolve(destino: &mut [u8], v: &Vec<u8>)
    requires
        old(destino)@.len() == v@.len(),
    ensures
        final(destino)@ == v@,
{
    let n = v.len();
    let mut i: usize = 0;
    while i < n
        invariant
            n == v@.len(),
            i <= n,
            destino@.len() == n,
            forall|k: int| 0 <= k < i ==> destino@[k] == v@[k],
        decreases n - i,
    {
        destino[i] = v[i];
        i = i + 1;
    }
    proof {
        assert(destino@ =~= v@);
    }
}

/// Replaces the routines found in `modulo` (mapped in the guest at `base`) and points the
/// calls to them straight at their trampolines. Gives the trampolines, to map at `VFP_BASE`
/// (and at `VFP_BASE_ANTIGO`), and what was replaced. With nothing found, everything comes
/// back empty and the module stays as it was. The module may be of any size that fits in
/// the guest's 32-bit space at `base`; trampoline addresses and the count of inlined calls
/// wrap at 32 bits.
pub fn acelera(modulo: &mut [u8], base: u32) -> (r: (Trampolins, Vec<Troca>))
    requires
        base + old(modulo)@.len() <= u32::MAX,
    ensures
        ({
            let e = acelera_spec(old(modulo)@, base);
            &&& final(modulo)@ == e.modulo
            &&& r.0.novos@ == bytes_de(e.novos)
            &&& r.0.antigos@ == bytes_de(e.antigos)
            &&& r.0.embutidas == e.embutidas
            &&& r.1@ == e.trocas
        }),
{
    let alvos = destinos(modulo, base);
    let mut obra = Obra {
        modulo: copia(modulo),
        novos: Vec::new(),
        antigos: Vec::new(),
        redireciona: Vec::new(),
        trocas: Vec::new(),
        embutidas: 0,
    };
    proof {
        assert(obra.estado() =~= estado_inicial(obra.modulo@));
    }
    fase_entradas_em(&mut obra, &alvos, base);
    let intacto = copia(obra.modulo.as_slice());
    let mapa = monta_mapa(&obra.redireciona);
    proof {
        lemma_mapa_spec(obra.redireciona@);
    }
    fase_chamadas_em(&mut obra, intacto.as_slice(), base, &mapa);
    devolve(modulo, &obra.modulo);
    let novos = em_bytes(&obra.novos);
    let antigos = em_bytes(&obra.antigos);
    (Trampolins { novos, antigos, embutidas: obra.embutidas }, obra.trocas)
}

} // verus!
