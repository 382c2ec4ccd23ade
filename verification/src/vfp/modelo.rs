//! What `acelera` does to a module, stated step by step over mathematical values.

use vstd::prelude::*;
use crate::vfp::arm::{
    alvo_arm, copiavel_spec, desvio_spec, e_desvio_arm, endereco, escreve_spec, palavra_spec,
    destinos_spec, soma32,
};
use crate::vfp::busca::procura_spec;
use crate::vfp::rotinas::{
    assinatura_spec, corpo_spec, nome_spec, BX_LR, FFLT, FFLTU, FFLTU_DESLOCAMENTO, FFLTU_MOV,
    LDR_PC, NUM_CORPOS, NUM_ROTINAS, PRIMEIRA_COMPARACAO, ROTINAS_ANTIGAS,
};

verus! {

/// Where the trampolines live: a read-and-execute region outside everything the game uses,
/// within 32 MB of the main module (which starts at 0xf000 and is at most about 4 MB with
/// the slack of its `.bss`), so that a `b`/`bl` reaches it.
pub const VFP_BASE: u32 = 0x0100_0000;

/// Where the trampolines lived when the entry was replaced by `ldr pc, [pc, #-4]` and an
/// address. A save state holds the whole module, with the old replacement inside: a state
/// saved by that version jumps here, so `acelera` also gives the bodies in the old layout.
pub const VFP_BASE_ANTIGO: u32 = 0x3300_0000;

/// At most how many instructions of the game a trampoline copies after the call.
pub const TRECHO_MAXIMO: usize = 48;

/// A replacement that was made, for the report.
#[derive(Debug, Clone, Copy, PartialEq, Eq)]
pub struct Troca {
    pub nome: &'static str,
    pub entrada: u32,
    /// How many `bl`/`b` of the module now point straight at the trampoline.
    pub chamadas: u32,
}

/// The trampolines: the bodies in the new layout (at `VFP_BASE`) and in the old one (at
/// `VFP_BASE_ANTIGO`, only for states saved by the `ldr pc` version).
#[derive(Debug, Default)]
pub struct Trampolins {
    pub novos: Vec<u8>,
    pub antigos: Vec<u8>,
    /// Calls inlined into the trampolines of other calls, for the report (counted modulo
    /// 2^32).
    pub embutidas: u32,
}

/// The state of a rewrite: the module, the two trampoline areas as words, every entry that
/// was replaced (its address, its trampoline and which routine it is) and the report.
pub struct Estado {
    pub modulo: Seq<u8>,
    pub novos: Seq<u32>,
    pub antigos: Seq<u32>,
    pub redireciona: Seq<(u32, u32, usize)>,
    pub trocas: Seq<Troca>,
    pub embutidas: int,
}

/// The state before anything is replaced in the module `s`.
pub open spec fn estado_inicial(s: Seq<u8>) -> Estado {
    Estado {
        modulo: s,
        novos: Seq::empty(),
        antigos: Seq::empty(),
        redireciona: Seq::empty(),
        trocas: Seq::empty(),
        embutidas: 0,
    }
}

/// The address of the next word of the new trampoline area (addresses wrap at 32 bits).
pub open spec fn proximo_trampolim(novos: Seq<u32>) -> u32 {
    soma32(VFP_BASE as int, 4 * novos.len() as int)
}

/// Replaces the entry of routine `rot` at byte `off`: one `b` to a trampoline holding its
/// body; when that is out of reach, `ldr pc, [pc, #-4]` and the address, which needs the
/// second word free (no known branch lands on it). With neither possible, nothing changes.
/// The flag says whether the old `ldr pc` version would also have replaced it (it asked for
/// `antiga` and for the second word free); the body then also goes to the old layout.
pub open spec fn troca_spec(
    e: Estado,
    alvos: Set<u32>,
    base: u32,
    rot: usize,
    off: int,
    antiga: bool,
) -> (Estado, bool) {
    let entrada = endereco(base, off);
    let destino = proximo_trampolim(e.novos);
    let segunda_livre = !alvos.contains(endereco(entrada, 4));
    let novo_modulo = match desvio_spec(entrada, destino, 0xea00_0000) {
        Some(b) => Some(escreve_spec(e.modulo, off, b)),
        None => if segunda_livre {
            Some(escreve_spec(escreve_spec(e.modulo, off, LDR_PC), off + 4, destino))
        } else {
            None
        },
    };
    match novo_modulo {
        None => (e, false),
        Some(m) => {
            let antiga = antiga && segunda_livre;
            (
                Estado {
                    modulo: m,
                    novos: e.novos + corpo_spec(rot as int),
                    antigos: if antiga {
                        e.antigos + corpo_spec(rot as int)
                    } else {
                        e.antigos
                    },
                    redireciona: e.redireciona.push((entrada, destino, rot)),
                    trocas: e.trocas.push(Troca { nome: nome_spec(rot as int), entrada, chamadas: 0 }),
                    embutidas: e.embutidas,
                },
                antiga,
            )
        },
    }
}

/// The unsigned integer-to-float conversion lives right after the signed one, whose entry is
/// at `off`: `mov r2, #0x40000000` 13 words after that entry, then a branch back into the
/// body of the signed one, 3 words after its entry.
pub open spec fn tem_ffltu(s: Seq<u8>, base: u32, off: int) -> bool {
    let u = off + FFLTU_DESLOCAMENTO;
    &&& u + 8 <= s.len()
    &&& palavra_spec(s, u) == FFLTU_MOV
    &&& palavra_spec(s, u + 4) & 0x0f00_0000 == 0x0a00_0000
    &&& alvo_arm(endereco(base, u + 4), palavra_spec(s, u + 4)) == endereco(base, off + 12)
}

/// Routine `i` is replaced when its signature appears exactly once in the module as it stands;
/// after the signed conversion, the unsigned one too when it is there (it joins the old layout
/// only when the signed one did).
pub open spec fn passo_rotina(e: Estado, alvos: Set<u32>, base: u32, i: int) -> Estado {
    let achados = procura_spec(e.modulo, assinatura_spec(i));
    if achados.len() != 1 {
        e
    } else {
        let off = achados[0] as int;
        let ffltu = i == FFLT && tem_ffltu(e.modulo, base, off);
        let (e1, antiga) = troca_spec(e, alvos, base, i as usize, off, i < ROTINAS_ANTIGAS);
        if ffltu {
            troca_spec(e1, alvos, base, FFLTU, off + FFLTU_DESLOCAMENTO, antiga).0
        } else {
            e1
        }
    }
}

/// The state after the first `n` routines.
pub open spec fn apos_rotinas(e: Estado, alvos: Set<u32>, base: u32, n: int) -> Estado
    decreases n,
{
    if n <= 0 {
        e
    } else {
        passo_rotina(apos_rotinas(e, alvos, base, n - 1), alvos, base, n - 1)
    }
}

/// The state after replacing comparison `c` at the first `k` of the places in `lista`.
pub open spec fn trocas_em(
    e: Estado,
    alvos: Set<u32>,
    base: u32,
    c: int,
    lista: Seq<usize>,
    k: int,
) -> Estado
    decreases k,
{
    if k <= 0 {
        e
    } else {
        troca_spec(trocas_em(e, alvos, base, c, lista, k - 1), alvos, base, c as usize, lista[k - 1] as int, false).0
    }
}

/// Comparison `c` is replaced at every place where it appears, when that is once or twice.
pub open spec fn passo_comparacao(e: Estado, alvos: Set<u32>, base: u32, c: int) -> Estado {
    let achados = procura_spec(e.modulo, assinatura_spec(c));
    if 1 <= achados.len() <= 2 {
        trocas_em(e, alvos, base, c, achados, achados.len() as int)
    } else {
        e
    }
}

/// The state after the first `n` comparisons.
pub open spec fn apos_comparacoes(e: Estado, alvos: Set<u32>, base: u32, n: int) -> Estado
    decreases n,
{
    if n <= 0 {
        e
    } else {
        passo_comparacao(apos_comparacoes(e, alvos, base, n - 1), alvos, base, PRIMEIRA_COMPARACAO + n - 1)
    }
}

/// The state after every entry was replaced: the routines, then the comparisons.
pub open spec fn fase_entradas(s: Seq<u8>, base: u32) -> Estado {
    let alvos = destinos_spec(s, base);
    apos_comparacoes(apos_rotinas(estado_inicial(s), alvos, base, NUM_ROTINAS as int), alvos, base, 2)
}

/// Each replaced entry, to its trampoline, its routine and its place in the report; a later
/// entry at the same address wins.
pub open spec fn mapa_spec(red: Seq<(u32, u32, usize)>) -> Map<u32, (u32, usize, usize)>
    decreases red.len(),
{
    if red.len() == 0 {
        Map::empty()
    } else {
        let (e, d, r) = red.last();
        mapa_spec(red.drop_last()).insert(e, (d, r, (red.len() - 1) as usize))
    }
}

/// Every entry of the map points at a place of the report that exists, and leads to a known
/// body when every replaced entry does.
pub proof fn lemma_mapa_spec(red: Seq<(u32, u32, usize)>)
    ensures
        forall|k: u32| #[trigger] mapa_spec(red).contains_key(k) ==> mapa_spec(red)[k].2 < red.len(),
        (forall|j: int| 0 <= j < red.len() ==> (#[trigger] red[j]).2 < NUM_CORPOS)
            ==> forall|k: u32| #[trigger] mapa_spec(red).contains_key(k) ==> mapa_spec(red)[k].1 < NUM_CORPOS,
    decreases red.len(),
{
    if red.len() > 0 {
        let r = red.drop_last();
        lemma_mapa_spec(r);
        if forall|j: int| 0 <= j < red.len() ==> (#[trigger] red[j]).2 < NUM_CORPOS {
            assert forall|j: int| 0 <= j < r.len() implies (#[trigger] r[j]).2 < NUM_CORPOS by {
                assert(r[j] == red[j]);
            }
            assert(red[red.len() - 1].2 < NUM_CORPOS);
        }
        let (e, d, x) = red.last();
        assert(mapa_spec(red) == mapa_spec(r).insert(e, (d, x, (red.len() - 1) as usize)));
    }
}

/// Copies into `seq` the straight-line code that follows a call, from byte `off` of the
/// module as it was before the calls were rewritten, at most `resta` instructions: up to the
/// first that cannot change address, with the unconditional `bl` to another replaced routine
/// inlined as its body. Gives where the copy stopped, how many calls were inlined and `seq`.
pub open spec fn estende_spec(
    orig: Seq<u8>,
    base: u32,
    off: int,
    mapa: Map<u32, (u32, usize, usize)>,
    seq: Seq<u32>,
    embutidas: int,
    resta: nat,
) -> (int, int, Seq<u32>)
    decreases resta,
{
    if resta == 0 || off + 4 > orig.len() {
        (off, embutidas, seq)
    } else {
        let w = palavra_spec(orig, off);
        if w >> 24u32 == 0xeb {
            let alvo = alvo_arm(endereco(base, off), w);
            if mapa.contains_key(alvo) && corpo_spec(mapa[alvo].1 as int).last() == BX_LR {
                estende_spec(
                    orig,
                    base,
                    off + 4,
                    mapa,
                    seq + corpo_spec(mapa[alvo].1 as int).drop_last(),
                    embutidas + 1,
                    (resta - 1) as nat,
                )
            } else {
                (off, embutidas, seq)
            }
        } else if copiavel_spec(w) {
            estende_spec(orig, base, off + 4, mapa, seq.push(w), embutidas, (resta - 1) as nat)
        } else {
            (off, embutidas, seq)
        }
    }
}

/// The call at byte `i` now reaches its routine through `novo`, counted in the report.
pub open spec fn aplica(e: Estado, i: int, novo: Option<u32>, k: int) -> Estado {
    match novo {
        Some(w) => Estado {
            modulo: escreve_spec(e.modulo, i, w),
            trocas: e.trocas.update(
                k,
                Troca {
                    nome: e.trocas[k].nome,
                    entrada: e.trocas[k].entrada,
                    chamadas: (e.trocas[k].chamadas + 1) as u32,
                },
            ),
            ..e
        },
        None => e,
    }
}

/// Rewrites the ARM `b`/`bl` at byte `i` (read from `orig`, the module after the entries were
/// replaced) when its target is a replaced entry. An unconditional-or-conditional `bl` whose
/// routine returns with `bx lr` gets a trampoline of its own: the body without the return, the
/// straight-line code after the call when the call is unconditional, and a `b` back to the
/// first instruction not copied. Otherwise, or when that is out of reach, the branch goes
/// straight to the shared trampoline, keeping its condition and kind.
#[verifier::opaque]
pub open spec fn passo_chamada(
    e: Estado,
    orig: Seq<u8>,
    base: u32,
    mapa: Map<u32, (u32, usize, usize)>,
    i: int,
) -> Estado {
    let w = palavra_spec(orig, i);
    let pc = endereco(base, i);
    let alvo = alvo_arm(pc, w);
    if !e_desvio_arm(w) || !mapa.contains_key(alvo) {
        e
    } else {
        let (comum, rot, k) = mapa[alvo];
        let corpo = corpo_spec(rot as int);
        let proprio = proximo_trampolim(e.novos);
        let so_dele = w & 0x0100_0000 != 0 && corpo.last() == BX_LR;
        let direto = desvio_spec(pc, comum, w & 0xff00_0000);
        match (if so_dele {
            desvio_spec(pc, proprio, (w & 0xf000_0000) | 0x0a00_0000)
        } else {
            None
        }) {
            Some(ida) => {
                let (seguinte, embutidas, seq) = if w >> 28u32 == 0xe {
                    let (o, n, sq) = estende_spec(orig, base, i + 4, mapa, corpo.drop_last(), 0, TRECHO_MAXIMO as nat);
                    (endereco(base, o), n, sq)
                } else {
                    ((pc + 4) as u32, 0, corpo.drop_last())
                };
                match desvio_spec(soma32(proprio as int, 4 * seq.len() as int), seguinte, 0xea00_0000) {
                    Some(volta) => aplica(
                        Estado {
                            novos: e.novos + seq.push(volta),
                            embutidas: (e.embutidas + embutidas) % 0x1_0000_0000,
                            ..e
                        },
                        i,
                        Some(ida),
                        k as int,
                    ),
                    None => aplica(e, i, direto, k as int),
                }
            },
            None => aplica(e, i, direto, k as int),
        }
    }
}

/// The state after the calls at the word-aligned bytes below `k` were rewritten.
pub open spec fn apos_chamadas(
    e: Estado,
    orig: Seq<u8>,
    base: u32,
    mapa: Map<u32, (u32, usize, usize)>,
    k: int,
) -> Estado
    decreases k,
{
    if k <= 0 {
        e
    } else {
        let antes = apos_chamadas(e, orig, base, mapa, k - 1);
        if (k - 1) % 4 == 0 && k - 1 + 4 <= orig.len() {
            passo_chamada(antes, orig, base, mapa, k - 1)
        } else {
            antes
        }
    }
}

/// Everything `acelera` does to the module `s` mapped at `base`: the entries replaced, then
/// the calls to them rewritten.
pub open spec fn acelera_spec(s: Seq<u8>, base: u32) -> Estado {
    let e = fase_entradas(s, base);
    apos_chamadas(e, e.modulo, base, mapa_spec(e.redireciona), s.len() as int)
}

/// The bytes of a word, little-endian.
pub open spec fn bytes_da_palavra(w: u32) -> Seq<u8> {
    seq![(w & 0xff) as u8, ((w >> 8u32) & 0xff) as u8, ((w >> 16u32) & 0xff) as u8, ((w >> 24u32) & 0xff) as u8]
}

/// The bytes of a sequence of words, little-endian, one word after the other.
pub open spec fn bytes_de(ws: Seq<u32>) -> Seq<u8>
    decreases ws.len(),
{
    if ws.len() == 0 {
        Seq::empty()
    } else {
        bytes_de(ws.drop_last()) + bytes_da_palavra(ws.last())
    }
}

} // verus!
